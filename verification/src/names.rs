use crate::errors::ScaffoldError;
use vstd::prelude::*;
use vstd::string::StrSliceExecFns;
use vstd::string::StringExecFns;

verus! {

/// Character-by-character equality of two string slices.
pub fn str_eq(a: &str, b: &str) -> (r: bool)
    ensures
        r == (a@ == b@),
{
    let na = a.unicode_len();
    let nb = b.unicode_len();
    if na != nb {
        proof {
            assert(a@ != b@);
        }
        return false;
    }
    for i in 0..na
        invariant
            na == a@.len(),
            na == b@.len(),
            forall|k: int| 0 <= k < i ==> a@[k] == b@[k],
    {
        if a.get_char(i) != b.get_char(i) {
            return false;
        }
    }
    proof {
        assert(a@ =~= b@);
    }
    true
}

/// The index of the first element of the vector that reads as this string.
pub fn find_str_index(v: &Vec<String>, x: &str) -> (r: Option<usize>)
    ensures
        match r {
            Some(i) => i < v@.len() && v@[i as int]@ == x@ && forall|k: int|
                0 <= k < i ==> v@[k]@ != x@,
            None => forall|k: int| 0 <= k < v@.len() ==> v@[k]@ != x@,
        },
{
    let n = v.len();
    for i in 0..n
        invariant
            n == v@.len(),
            forall|k: int| 0 <= k < i ==> v@[k]@ != x@,
    {
        if str_eq(v[i].as_str(), x) {
            return Some(i);
        }
    }
    None
}

/// Does some element of the vector read as this string?
pub fn vec_contains_str(v: &Vec<String>, x: &str) -> (b: bool)
    ensures
        b == exists|i: int| 0 <= i < v@.len() && v@[i]@ == x@,
{
    match find_str_index(v, x) {
        Some(i) => {
            proof {
                assert(0 <= i < v@.len() && v@[i as int]@ == x@);
            }
            true
        },
        None => false,
    }
}

/// Does the identifier already carry the shared module-name prefix `tb_`?
pub open spec fn has_module_prefix(s: Seq<char>) -> bool {
    s.len() >= 3 && s[0] == 't' && s[1] == 'b' && s[2] == '_'
}

/// The module directory name derived from a user-supplied identifier: the
/// identifier itself when it already carries the prefix, otherwise the
/// prefix followed by the identifier.
pub open spec fn spec_module_dir(g: Seq<char>) -> Seq<char> {
    if has_module_prefix(g) {
        g
    } else {
        seq!['t', 'b', '_'] + g
    }
}

/// The bare game id derived from a user-supplied identifier: the identifier
/// with the shared prefix stripped if present.
pub open spec fn spec_game_id(g: Seq<char>) -> Seq<char> {
    if has_module_prefix(g) {
        g.skip(3)
    } else {
        g
    }
}

/// ASCII upper-casing of one character; anything but a lower-case ASCII
/// letter is left unchanged.
pub open spec fn spec_upper(c: char) -> char {
    if c == 'a' {
        'A'
    } else if c == 'b' {
        'B'
    } else if c == 'c' {
        'C'
    } else if c == 'd' {
        'D'
    } else if c == 'e' {
        'E'
    } else if c == 'f' {
        'F'
    } else if c == 'g' {
        'G'
    } else if c == 'h' {
        'H'
    } else if c == 'i' {
        'I'
    } else if c == 'j' {
        'J'
    } else if c == 'k' {
        'K'
    } else if c == 'l' {
        'L'
    } else if c == 'm' {
        'M'
    } else if c == 'n' {
        'N'
    } else if c == 'o' {
        'O'
    } else if c == 'p' {
        'P'
    } else if c == 'q' {
        'Q'
    } else if c == 'r' {
        'R'
    } else if c == 's' {
        'S'
    } else if c == 't' {
        'T'
    } else if c == 'u' {
        'U'
    } else if c == 'v' {
        'V'
    } else if c == 'w' {
        'W'
    } else if c == 'x' {
        'X'
    } else if c == 'y' {
        'Y'
    } else if c == 'z' {
        'Z'
    } else {
        c
    }
}

/// The generated entry-point class name: the first character upper-cased,
/// the remainder unchanged.
pub open spec fn spec_entry_class(g: Seq<char>) -> Seq<char>
    recommends
        g.len() > 0,
{
    seq![spec_upper(g[0])] + g.skip(1)
}

/// The uppercase counterpart of a lower-case ASCII letter, as a one-character
/// string slice; `None` for every other character.
fn upper_first_str(c: char) -> (r: Option<&'static str>)
    ensures
        match r {
            Some(s) => s@ == seq![spec_upper(c)] && spec_upper(c) != c,
            None => spec_upper(c) == c,
        },
{
    match c {
        'a' => {
            proof {
                reveal_strlit("A");
            }
            Some("A")
        },
        'b' => {
            proof {
                reveal_strlit("B");
            }
            Some("B")
        },
        'c' => {
            proof {
                reveal_strlit("C");
            }
            Some("C")
        },
        'd' => {
            proof {
                reveal_strlit("D");
            }
            Some("D")
        },
        'e' => {
            proof {
                reveal_strlit("E");
            }
            Some("E")
        },
        'f' => {
            proof {
                reveal_strlit("F");
            }
            Some("F")
        },
        'g' => {
            proof {
                reveal_strlit("G");
            }
            Some("G")
        },
        'h' => {
            proof {
                reveal_strlit("H");
            }
            Some("H")
        },
        'i' => {
            proof {
                reveal_strlit("I");
            }
            Some("I")
        },
        'j' => {
            proof {
                reveal_strlit("J");
            }
            Some("J")
        },
        'k' => {
            proof {
                reveal_strlit("K");
            }
            Some("K")
        },
        'l' => {
            proof {
                reveal_strlit("L");
            }
            Some("L")
        },
        'm' => {
            proof {
                reveal_strlit("M");
            }
            Some("M")
        },
        'n' => {
            proof {
                reveal_strlit("N");
            }
            Some("N")
        },
        'o' => {
            proof {
                reveal_strlit("O");
            }
            Some("O")
        },
        'p' => {
            proof {
                reveal_strlit("P");
            }
            Some("P")
        },
        'q' => {
            proof {
                reveal_strlit("Q");
            }
            Some("Q")
        },
        'r' => {
            proof {
                reveal_strlit("R");
            }
            Some("R")
        },
        's' => {
            proof {
                reveal_strlit("S");
            }
            Some("S")
        },
        't' => {
            proof {
                reveal_strlit("T");
            }
            Some("T")
        },
        'u' => {
            proof {
                reveal_strlit("U");
            }
            Some("U")
        },
        'v' => {
            proof {
                reveal_strlit("V");
            }
            Some("V")
        },
        'w' => {
            proof {
                reveal_strlit("W");
            }
            Some("W")
        },
        'x' => {
            proof {
                reveal_strlit("X");
            }
            Some("X")
        },
        'y' => {
            proof {
                reveal_strlit("Y");
            }
            Some("Y")
        },
        'z' => {
            proof {
                reveal_strlit("Z");
            }
            Some("Z")
        },
        _ => None,
    }
}

/// Does this string start with the shared module-name prefix `tb_`?
fn starts_with_module_prefix(s: &str) -> (b: bool)
    ensures
        b == has_module_prefix(s@),
{
    let n = s.unicode_len();
    n >= 3 && s.get_char(0) == 't' && s.get_char(1) == 'b' && s.get_char(2) == '_'
}

/// Derives the module directory name for a user-supplied identifier.
pub fn derive_module_dir(g: &String) -> (r: String)
    ensures
        r@ == spec_module_dir(g@),
{
    if starts_with_module_prefix(g.as_str()) {
        g.clone()
    } else {
        proof {
            reveal_strlit("tb_");
            assert("tb_"@ =~= seq!['t', 'b', '_']);
        }
        String::from_str("tb_").concat(g.as_str())
    }
}

/// Derives the bare game id for a user-supplied identifier.
pub fn derive_game_id(g: &String) -> (r: String)
    ensures
        r@ == spec_game_id(g@),
{
    if starts_with_module_prefix(g.as_str()) {
        let n = g.as_str().unicode_len();
        let bare = g.as_str().substring_char(3, n);
        proof {
            assert(bare@ =~= g@.skip(3));
        }
        String::from_str(bare)
    } else {
        g.clone()
    }
}

/// Derives the entry-point class name for a bare game id: the first
/// character upper-cased, the remainder unchanged.  Fails with
/// `InvalidName` on the empty identifier.
pub fn entry_class_name(g: &String) -> (r: Result<String, ScaffoldError>)
    ensures
        match r {
            Ok(s) => g@.len() > 0 && s@ == spec_entry_class(g@),
            Err(e) => g@.len() == 0 && e == ScaffoldError::InvalidName,
        },
{
    let n = g.as_str().unicode_len();
    if n == 0 {
        return Err(ScaffoldError::InvalidName);
    }
    let first = g.as_str().get_char(0);
    match upper_first_str(first) {
        Some(up) => {
            let tail = g.as_str().substring_char(1, n);
            let out = String::from_str(up).concat(tail);
            proof {
                assert(out@ =~= spec_entry_class(g@));
            }
            Ok(out)
        },
        None => {
            let out = g.clone();
            proof {
                assert(out@ =~= spec_entry_class(g@));
            }
            Ok(out)
        },
    }
}

/// The three names an add operation works with, derived once from the
/// user-supplied identifier.
#[derive(Clone, Debug)]
pub struct NamePlan {
    /// The bare game id (primary key of the registry).
    pub game_id: String,
    /// The module directory added to the workspace manifest.
    pub module_dir: String,
    /// The generated entry-point class name.
    pub entry_class: String,
}

impl NamePlan {
    /// Do the three names agree with the derivation policy for `raw`?
    pub open spec fn derived_from(self, raw: Seq<char>) -> bool {
        &&& self.game_id@ == spec_game_id(raw)
        &&& self.module_dir@ == spec_module_dir(raw)
        &&& self.entry_class@ == spec_entry_class(spec_game_id(raw))
    }
}

/// Derives all three names from a user-supplied identifier; fails with
/// `InvalidName` exactly when the bare id is empty after prefix stripping.
pub fn derive_names(raw: &String) -> (r: Result<NamePlan, ScaffoldError>)
    ensures
        match r {
            Ok(p) => spec_game_id(raw@).len() > 0 && p.derived_from(raw@),
            Err(e) => spec_game_id(raw@).len() == 0 && e == ScaffoldError::InvalidName,
        },
{
    let game_id = derive_game_id(raw);
    let module_dir = derive_module_dir(raw);
    match entry_class_name(&game_id) {
        Ok(entry_class) => Ok(NamePlan { game_id, module_dir, entry_class }),
        Err(e) => Err(e),
    }
}

} // verus!
