//! The serialized document format of the three stores, with its proof of
//! round-trip fidelity.
//!
//! Each store persists as a structured key-value text document: a one-tag
//! header naming the store kind, then counted sections whose string values
//! are length-prefixed (digits, a `:` separator, then the characters
//! verbatim), so no escaping is ever needed.  The spec-level serializer and
//! parser below define the format; the exec functions are proved to agree
//! with them, and the round-trip lemmas show that parsing a serialized
//! store yields the original value.

use crate::names::str_eq;
use crate::registry::GameEntry;
use crate::registry::GameEntryModel;
use crate::registry::GameRegistry;
use vstd::arithmetic::div_mod::lemma_fundamental_div_mod;
use vstd::prelude::*;

verus! {

/// The decimal digit character for a value below ten.
pub open spec fn digit_char(d: nat) -> char
    recommends
        d < 10,
{
    if d == 0 {
        '0'
    } else if d == 1 {
        '1'
    } else if d == 2 {
        '2'
    } else if d == 3 {
        '3'
    } else if d == 4 {
        '4'
    } else if d == 5 {
        '5'
    } else if d == 6 {
        '6'
    } else if d == 7 {
        '7'
    } else if d == 8 {
        '8'
    } else {
        '9'
    }
}

/// Is this character a decimal digit?
pub open spec fn is_digit_char(c: char) -> bool {
    ||| c == '0'
    ||| c == '1'
    ||| c == '2'
    ||| c == '3'
    ||| c == '4'
    ||| c == '5'
    ||| c == '6'
    ||| c == '7'
    ||| c == '8'
    ||| c == '9'
}

/// The value of a decimal digit character (ten for anything else).
pub open spec fn digit_val(c: char) -> nat {
    if c == '0' {
        0
    } else if c == '1' {
        1
    } else if c == '2' {
        2
    } else if c == '3' {
        3
    } else if c == '4' {
        4
    } else if c == '5' {
        5
    } else if c == '6' {
        6
    } else if c == '7' {
        7
    } else if c == '8' {
        8
    } else if c == '9' {
        9
    } else {
        10
    }
}

/// The decimal digits of a number, most significant first.
pub open spec fn dec_digits(n: nat) -> Seq<char>
    decreases n,
{
    if n < 10 {
        seq![digit_char(n)]
    } else {
        dec_digits(n / 10).push(digit_char(n % 10))
    }
}

/// A serialized number: its digits closed by a `:` separator.
pub open spec fn ser_num(n: nat) -> Seq<char> {
    dec_digits(n).push(':')
}

/// A serialized string value: its length, then its characters verbatim.
pub open spec fn ser_field(s: Seq<char>) -> Seq<char> {
    ser_num(s.len()) + s
}

/// A serialized boolean.
pub open spec fn ser_bool(b: bool) -> Seq<char> {
    if b {
        seq!['T']
    } else {
        seq!['F']
    }
}

/// A serialized optional string value.
pub open spec fn ser_opt_field(o: Option<Seq<char>>) -> Seq<char> {
    match o {
        None => seq!['N'],
        Some(s) => seq!['S'] + ser_field(s),
    }
}

/// A serialized optional boolean.
pub open spec fn ser_opt_bool(o: Option<bool>) -> Seq<char> {
    match o {
        None => seq!['N'],
        Some(b) => seq!['S'] + ser_bool(b),
    }
}

/// The concatenation of serialized string values.
pub open spec fn ser_fields(v: Seq<Seq<char>>) -> Seq<char>
    decreases v.len(),
{
    if v.len() == 0 {
        Seq::empty()
    } else {
        ser_field(v[0]) + ser_fields(v.drop_first())
    }
}

/// A serialized string list: its length, then each value in order.
pub open spec fn ser_str_list(v: Seq<Seq<char>>) -> Seq<char> {
    ser_num(v.len()) + ser_fields(v)
}

/// Parses digits up to a `:` separator, accumulating their value; rejects
/// values that would not fit the machine's word.
pub open spec fn parse_digits(s: Seq<char>, acc: nat) -> Option<(nat, Seq<char>)>
    decreases s.len(),
{
    if s.len() == 0 {
        None
    } else if s[0] == ':' {
        Some((acc, s.drop_first()))
    } else if is_digit_char(s[0]) && acc * 10 + digit_val(s[0]) <= usize::MAX {
        parse_digits(s.drop_first(), acc * 10 + digit_val(s[0]))
    } else {
        None
    }
}

/// Parses one length-prefixed string value.
pub open spec fn parse_field(s: Seq<char>) -> Option<(Seq<char>, Seq<char>)> {
    match parse_digits(s, 0) {
        None => None,
        Some((n, r)) => if r.len() >= n {
            Some((r.take(n as int), r.skip(n as int)))
        } else {
            None
        },
    }
}

/// Parses one boolean.
pub open spec fn parse_bool(s: Seq<char>) -> Option<(bool, Seq<char>)> {
    if s.len() == 0 {
        None
    } else if s[0] == 'T' {
        Some((true, s.drop_first()))
    } else if s[0] == 'F' {
        Some((false, s.drop_first()))
    } else {
        None
    }
}

/// Parses one optional string value.
pub open spec fn parse_opt_field(s: Seq<char>) -> Option<(Option<Seq<char>>, Seq<char>)> {
    if s.len() == 0 {
        None
    } else if s[0] == 'N' {
        Some((None, s.drop_first()))
    } else if s[0] == 'S' {
        match parse_field(s.drop_first()) {
            None => None,
            Some((v, r)) => Some((Some(v), r)),
        }
    } else {
        None
    }
}

/// Parses one optional boolean.
pub open spec fn parse_opt_bool(s: Seq<char>) -> Option<(Option<bool>, Seq<char>)> {
    if s.len() == 0 {
        None
    } else if s[0] == 'N' {
        Some((None, s.drop_first()))
    } else if s[0] == 'S' {
        match parse_bool(s.drop_first()) {
            None => None,
            Some((v, r)) => Some((Some(v), r)),
        }
    } else {
        None
    }
}

/// Parses exactly `k` string values.
pub open spec fn parse_fields(s: Seq<char>, k: nat) -> Option<(Seq<Seq<char>>, Seq<char>)>
    decreases k,
{
    if k == 0 {
        Some((Seq::empty(), s))
    } else {
        match parse_field(s) {
            None => None,
            Some((v, r)) => match parse_fields(r, (k - 1) as nat) {
                None => None,
                Some((vs, r2)) => Some((seq![v] + vs, r2)),
            },
        }
    }
}

/// Parses one counted string list.
pub open spec fn parse_str_list(s: Seq<char>) -> Option<(Seq<Seq<char>>, Seq<char>)> {
    match parse_digits(s, 0) {
        None => None,
        Some((k, r)) => parse_fields(r, k),
    }
}

/// Powers of ten.
pub open spec fn pow10(k: nat) -> nat
    decreases k,
{
    if k == 0 {
        1
    } else {
        10 * pow10((k - 1) as nat)
    }
}

/// Every sequence element is short enough to carry a machine-word length
/// prefix, and there are few enough of them to count the same way.
pub open spec fn fields_fit(v: Seq<Seq<char>>) -> bool {
    &&& v.len() <= usize::MAX
    &&& forall|i: int| 0 <= i < v.len() ==> #[trigger] v[i].len() <= usize::MAX
}

/// Consuming the digits of `n` advances the accumulator exactly as the
/// decimal expansion demands.
proof fn lemma_parse_digits_append(n: nat, acc: nat, tail: Seq<char>)
    requires
        acc * pow10(dec_digits(n).len()) + n <= usize::MAX,
    ensures
        parse_digits(dec_digits(n) + tail, acc) == parse_digits(
            tail,
            acc * pow10(dec_digits(n).len()) + n,
        ),
    decreases n,
{
    if n < 10 {
        let s = dec_digits(n) + tail;
        assert(s[0] == digit_char(n));
        assert(is_digit_char(digit_char(n)) && digit_val(digit_char(n)) == n);
        assert(s.drop_first() =~= tail);
        assert(pow10(0) == 1);
        assert(pow10(1) == 10);
        assert(acc * pow10(1) == acc * 10);
        assert(s[0] != ':');
    } else {
        let m = n / 10;
        let d = n % 10;
        lemma_fundamental_div_mod(n as int, 10);
        let lm = dec_digits(m).len();
        assert(dec_digits(n).len() == lm + 1);
        assert(pow10(lm + 1) == 10 * pow10(lm));
        let accm = acc * pow10(lm) + m;
        assert(accm * 10 + d == acc * pow10((lm + 1) as nat) + n) by (nonlinear_arith)
            requires
                accm == acc * pow10(lm) + m,
                pow10((lm + 1) as nat) == 10 * pow10(lm),
                n == 10 * m + d,
        ;
        assert(accm <= accm * 10 + d) by (nonlinear_arith);
        lemma_parse_digits_append(m, acc, seq![digit_char(d)] + tail);
        assert(dec_digits(n) + tail =~= dec_digits(m) + (seq![digit_char(d)] + tail));
        let s2 = seq![digit_char(d)] + tail;
        assert(s2[0] == digit_char(d));
        assert(is_digit_char(digit_char(d)) && digit_val(digit_char(d)) == d);
        assert(s2[0] != ':');
        assert(s2.drop_first() =~= tail);
    }
}

/// Parsing a serialized number yields the number and the rest.
proof fn lemma_parse_num(n: nat, rest: Seq<char>)
    requires
        n <= usize::MAX,
    ensures
        parse_digits(ser_num(n) + rest, 0) == Some((n, rest)),
{
    assert(ser_num(n) + rest =~= dec_digits(n) + (seq![':'] + rest));
    assert(0 * pow10(dec_digits(n).len()) == 0) by (nonlinear_arith);
    lemma_parse_digits_append(n, 0, seq![':'] + rest);
    let s2 = seq![':'] + rest;
    assert(s2[0] == ':');
    assert(s2.drop_first() =~= rest);
}

/// Parsing a serialized string value yields the value and the rest.
proof fn lemma_parse_field(sv: Seq<char>, rest: Seq<char>)
    requires
        sv.len() <= usize::MAX,
    ensures
        parse_field(ser_field(sv) + rest) == Some((sv, rest)),
{
    assert(ser_field(sv) + rest =~= ser_num(sv.len()) + (sv + rest));
    lemma_parse_num(sv.len(), sv + rest);
    assert((sv + rest).take(sv.len() as int) =~= sv);
    assert((sv + rest).skip(sv.len() as int) =~= rest);
}

/// Parsing a serialized boolean yields the boolean and the rest.
proof fn lemma_parse_bool(b: bool, rest: Seq<char>)
    ensures
        parse_bool(ser_bool(b) + rest) == Some((b, rest)),
{
    let s = ser_bool(b) + rest;
    assert(s.drop_first() =~= rest);
}

/// Parsing a serialized optional string yields the option and the rest.
proof fn lemma_parse_opt_field(o: Option<Seq<char>>, rest: Seq<char>)
    requires
        o matches Some(s) ==> s.len() <= usize::MAX,
    ensures
        parse_opt_field(ser_opt_field(o) + rest) == Some((o, rest)),
{
    match o {
        None => {
            let s = ser_opt_field(o) + rest;
            assert(s.drop_first() =~= rest);
        },
        Some(sv) => {
            let s = ser_opt_field(o) + rest;
            assert(s.drop_first() =~= ser_field(sv) + rest);
            lemma_parse_field(sv, rest);
        },
    }
}

/// Parsing a serialized optional boolean yields the option and the rest.
proof fn lemma_parse_opt_bool(o: Option<bool>, rest: Seq<char>)
    ensures
        parse_opt_bool(ser_opt_bool(o) + rest) == Some((o, rest)),
{
    match o {
        None => {
            let s = ser_opt_bool(o) + rest;
            assert(s.drop_first() =~= rest);
        },
        Some(b) => {
            let s = ser_opt_bool(o) + rest;
            assert(s.drop_first() =~= ser_bool(b) + rest);
            lemma_parse_bool(b, rest);
        },
    }
}

/// Parsing the concatenation of `v.len()` serialized values yields them all.
proof fn lemma_parse_fields(v: Seq<Seq<char>>, rest: Seq<char>)
    requires
        forall|i: int| 0 <= i < v.len() ==> #[trigger] v[i].len() <= usize::MAX,
    ensures
        parse_fields(ser_fields(v) + rest, v.len()) == Some((v, rest)),
    decreases v.len(),
{
    if v.len() == 0 {
        assert(ser_fields(v) + rest =~= rest);
        assert(v =~= Seq::<Seq<char>>::empty());
    } else {
        assert(ser_fields(v) + rest =~= ser_field(v[0]) + (ser_fields(v.drop_first()) + rest));
        lemma_parse_field(v[0], ser_fields(v.drop_first()) + rest);
        assert(forall|i: int|
            0 <= i < v.drop_first().len() ==> #[trigger] v.drop_first()[i].len() <= usize::MAX);
        lemma_parse_fields(v.drop_first(), rest);
        assert(seq![v[0]] + v.drop_first() =~= v);
    }
}

/// Parsing a serialized string list yields the list and the rest.
proof fn lemma_parse_str_list(v: Seq<Seq<char>>, rest: Seq<char>)
    requires
        fields_fit(v),
    ensures
        parse_str_list(ser_str_list(v) + rest) == Some((v, rest)),
{
    assert(ser_str_list(v) + rest =~= ser_num(v.len()) + (ser_fields(v) + rest));
    lemma_parse_num(v.len(), ser_fields(v) + rest);
    lemma_parse_fields(v, rest);
}

/// The ghost shape of one serialized dependency entry.
#[verifier::ext_equal]
pub ghost struct DepModel {
    pub key: Seq<char>,
    pub path: Option<Seq<char>>,
    pub version: Seq<char>,
    pub optional: bool,
}

/// The ghost shape of a serialized module manifest.
#[verifier::ext_equal]
pub ghost struct ManifestModel {
    pub name: Seq<char>,
    pub version: Seq<char>,
    pub authors: Seq<Seq<char>>,
    pub edition: Seq<char>,
    pub publish: Option<bool>,
    pub deps: Seq<DepModel>,
    pub features: Option<Seq<Seq<char>>>,
}

/// The ghost shape of a game registry: the models of its entries, in order.
pub open spec fn registry_model(reg: GameRegistry) -> Seq<GameEntryModel> {
    reg.games@.map_values(|e: GameEntry| e@)
}

/// The ghost shape of a workspace manifest: the views of its members.
pub open spec fn workspace_model(ws: crate::workspace::WorkspaceManifest) -> Seq<Seq<char>> {
    crate::module_manifest::views_of(ws.members@)
}

/// The ghost shape of one dependency entry.
pub open spec fn dep_model(p: (String, crate::module_manifest::DepSpec)) -> DepModel {
    DepModel {
        key: p.0@,
        path: match p.1.path {
            Some(s) => Some(s@),
            None => None,
        },
        version: p.1.version@,
        optional: p.1.optional,
    }
}

/// The ghost shape of a module manifest.
pub open spec fn manifest_model(m: crate::module_manifest::ModuleManifest) -> ManifestModel {
    ManifestModel {
        name: m.package.name@,
        version: m.package.version@,
        authors: crate::module_manifest::views_of(m.package.authors@),
        edition: m.package.edition@,
        publish: m.package.publish,
        deps: m.dependencies@.map_values(
            |p: (String, crate::module_manifest::DepSpec)| dep_model(p),
        ),
        features: match m.features {
            Some(f) => Some(crate::module_manifest::views_of(f.default@)),
            None => None,
        },
    }
}

/// One serialized registry entry: its three fields in order.
pub open spec fn ser_entry(e: GameEntryModel) -> Seq<char> {
    ser_field(e.id) + ser_field(e.module_dir) + ser_field(e.entry_class)
}

/// The concatenation of serialized registry entries.
pub open spec fn ser_entries(v: Seq<GameEntryModel>) -> Seq<char>
    decreases v.len(),
{
    if v.len() == 0 {
        Seq::empty()
    } else {
        ser_entry(v[0]) + ser_entries(v.drop_first())
    }
}

/// The registry document: tag, entry count, entries.
pub open spec fn ser_registry(m: Seq<GameEntryModel>) -> Seq<char> {
    seq!['G'] + (ser_num(m.len()) + ser_entries(m))
}

/// The workspace document: tag, then the member list.
pub open spec fn ser_workspace(v: Seq<Seq<char>>) -> Seq<char> {
    seq!['W'] + ser_str_list(v)
}

/// One serialized dependency entry.
pub open spec fn ser_dep(d: DepModel) -> Seq<char> {
    ser_field(d.key) + ser_opt_field(d.path) + ser_field(d.version) + ser_bool(d.optional)
}

/// The concatenation of serialized dependency entries.
pub open spec fn ser_deps(v: Seq<DepModel>) -> Seq<char>
    decreases v.len(),
{
    if v.len() == 0 {
        Seq::empty()
    } else {
        ser_dep(v[0]) + ser_deps(v.drop_first())
    }
}

/// A serialized optional string list.
pub open spec fn ser_opt_list(o: Option<Seq<Seq<char>>>) -> Seq<char> {
    match o {
        None => seq!['N'],
        Some(v) => seq!['S'] + ser_str_list(v),
    }
}

/// The module-manifest document: tag, package fields, dependency table,
/// optional feature section.
pub open spec fn ser_manifest(m: ManifestModel) -> Seq<char> {
    seq!['M'] + (ser_field(m.name) + (ser_field(m.version) + (ser_str_list(m.authors) + (ser_field(
        m.edition,
    ) + (ser_opt_bool(m.publish) + (ser_num(m.deps.len()) + (ser_deps(m.deps) + ser_opt_list(
        m.features,
    ))))))))
}

/// Parses one registry entry.
pub open spec fn parse_entry(s: Seq<char>) -> Option<(GameEntryModel, Seq<char>)> {
    match parse_field(s) {
        None => None,
        Some((id, r1)) => match parse_field(r1) {
            None => None,
            Some((md, r2)) => match parse_field(r2) {
                None => None,
                Some((ec, r3)) => Some(
                    (GameEntryModel { id: id, module_dir: md, entry_class: ec }, r3),
                ),
            },
        },
    }
}

/// Parses exactly `k` registry entries.
pub open spec fn parse_entries(s: Seq<char>, k: nat) -> Option<(Seq<GameEntryModel>, Seq<char>)>
    decreases k,
{
    if k == 0 {
        Some((Seq::empty(), s))
    } else {
        match parse_entry(s) {
            None => None,
            Some((e, r)) => match parse_entries(r, (k - 1) as nat) {
                None => None,
                Some((es, r2)) => Some((seq![e] + es, r2)),
            },
        }
    }
}

/// Parses a whole registry document; nothing may follow it.
pub open spec fn parse_registry(s: Seq<char>) -> Option<Seq<GameEntryModel>> {
    if s.len() == 0 || s[0] != 'G' {
        None
    } else {
        match parse_digits(s.drop_first(), 0) {
            None => None,
            Some((k, r)) => match parse_entries(r, k) {
                None => None,
                Some((v, r2)) => if r2.len() == 0 {
                    Some(v)
                } else {
                    None
                },
            },
        }
    }
}

/// Parses a whole workspace document; nothing may follow it.
pub open spec fn parse_workspace(s: Seq<char>) -> Option<Seq<Seq<char>>> {
    if s.len() == 0 || s[0] != 'W' {
        None
    } else {
        match parse_str_list(s.drop_first()) {
            None => None,
            Some((v, r)) => if r.len() == 0 {
                Some(v)
            } else {
                None
            },
        }
    }
}

/// Parses one dependency entry.
pub open spec fn parse_dep(s: Seq<char>) -> Option<(DepModel, Seq<char>)> {
    match parse_field(s) {
        None => None,
        Some((key, r1)) => match parse_opt_field(r1) {
            None => None,
            Some((path, r2)) => match parse_field(r2) {
                None => None,
                Some((ver, r3)) => match parse_bool(r3) {
                    None => None,
                    Some((opt, r4)) => Some(
                        (DepModel { key: key, path: path, version: ver, optional: opt }, r4),
                    ),
                },
            },
        },
    }
}

/// Parses exactly `k` dependency entries.
pub open spec fn parse_deps(s: Seq<char>, k: nat) -> Option<(Seq<DepModel>, Seq<char>)>
    decreases k,
{
    if k == 0 {
        Some((Seq::empty(), s))
    } else {
        match parse_dep(s) {
            None => None,
            Some((d, r)) => match parse_deps(r, (k - 1) as nat) {
                None => None,
                Some((ds, r2)) => Some((seq![d] + ds, r2)),
            },
        }
    }
}

/// Parses one optional string list.
pub open spec fn parse_opt_list(s: Seq<char>) -> Option<(Option<Seq<Seq<char>>>, Seq<char>)> {
    if s.len() == 0 {
        None
    } else if s[0] == 'N' {
        Some((None, s.drop_first()))
    } else if s[0] == 'S' {
        match parse_str_list(s.drop_first()) {
            None => None,
            Some((v, r)) => Some((Some(v), r)),
        }
    } else {
        None
    }
}

/// Parses a whole module-manifest document; nothing may follow it.
pub open spec fn parse_manifest(s: Seq<char>) -> Option<ManifestModel> {
    if s.len() == 0 || s[0] != 'M' {
        None
    } else {
        match parse_field(s.drop_first()) {
            None => None,
            Some((name, r1)) => match parse_field(r1) {
                None => None,
                Some((ver, r2)) => match parse_str_list(r2) {
                    None => None,
                    Some((authors, r3)) => match parse_field(r3) {
                        None => None,
                        Some((ed, r4)) => match parse_opt_bool(r4) {
                            None => None,
                            Some((pb, r5)) => match parse_digits(r5, 0) {
                                None => None,
                                Some((k, r6)) => match parse_deps(r6, k) {
                                    None => None,
                                    Some((ds, r7)) => match parse_opt_list(r7) {
                                        None => None,
                                        Some((fs, r8)) => if r8.len() == 0 {
                                            Some(
                                                ManifestModel {
                                                    name: name,
                                                    version: ver,
                                                    authors: authors,
                                                    edition: ed,
                                                    publish: pb,
                                                    deps: ds,
                                                    features: fs,
                                                },
                                            )
                                        } else {
                                            None
                                        },
                                    },
                                },
                            },
                        },
                    },
                },
            },
        }
    }
}

/// Machine-word bounds for one registry entry.
pub open spec fn entry_fits(e: GameEntryModel) -> bool {
    e.id.len() <= usize::MAX && e.module_dir.len() <= usize::MAX && e.entry_class.len()
        <= usize::MAX
}

/// Machine-word bounds for a registry model.
pub open spec fn registry_fits(m: Seq<GameEntryModel>) -> bool {
    m.len() <= usize::MAX && forall|i: int| 0 <= i < m.len() ==> #[trigger] entry_fits(m[i])
}

/// Machine-word bounds for one dependency entry.
pub open spec fn dep_fits(d: DepModel) -> bool {
    &&& d.key.len() <= usize::MAX
    &&& d.path matches Some(p) ==> p.len() <= usize::MAX
    &&& d.version.len() <= usize::MAX
}

/// Machine-word bounds for a module-manifest model.
pub open spec fn manifest_fits(m: ManifestModel) -> bool {
    &&& m.name.len() <= usize::MAX
    &&& m.version.len() <= usize::MAX
    &&& fields_fit(m.authors)
    &&& m.edition.len() <= usize::MAX
    &&& m.deps.len() <= usize::MAX
    &&& forall|i: int| 0 <= i < m.deps.len() ==> #[trigger] dep_fits(m.deps[i])
    &&& m.features matches Some(v) ==> fields_fit(v)
}

/// Parsing a serialized registry entry yields the entry and the rest.
proof fn lemma_parse_entry(e: GameEntryModel, rest: Seq<char>)
    requires
        entry_fits(e),
    ensures
        parse_entry(ser_entry(e) + rest) == Some((e, rest)),
{
    assert(ser_entry(e) + rest =~= ser_field(e.id) + (ser_field(e.module_dir) + (ser_field(
        e.entry_class,
    ) + rest)));
    lemma_parse_field(e.id, ser_field(e.module_dir) + (ser_field(e.entry_class) + rest));
    lemma_parse_field(e.module_dir, ser_field(e.entry_class) + rest);
    lemma_parse_field(e.entry_class, rest);
    assert((GameEntryModel { id: e.id, module_dir: e.module_dir, entry_class: e.entry_class })
        =~= e);
}

/// Parsing the concatenation of `v.len()` serialized entries yields them.
proof fn lemma_parse_entries(v: Seq<GameEntryModel>, rest: Seq<char>)
    requires
        forall|i: int| 0 <= i < v.len() ==> #[trigger] entry_fits(v[i]),
    ensures
        parse_entries(ser_entries(v) + rest, v.len()) == Some((v, rest)),
    decreases v.len(),
{
    if v.len() == 0 {
        assert(ser_entries(v) + rest =~= rest);
        assert(v =~= Seq::<GameEntryModel>::empty());
    } else {
        assert(ser_entries(v) + rest =~= ser_entry(v[0]) + (ser_entries(v.drop_first()) + rest));
        lemma_parse_entry(v[0], ser_entries(v.drop_first()) + rest);
        assert(forall|i: int|
            0 <= i < v.drop_first().len() ==> #[trigger] entry_fits(v.drop_first()[i]));
        lemma_parse_entries(v.drop_first(), rest);
        assert(seq![v[0]] + v.drop_first() =~= v);
    }
}

/// Round-trip fidelity of the registry document: parsing a serialized
/// registry model yields exactly that model.
pub proof fn lemma_registry_round_trip(m: Seq<GameEntryModel>)
    requires
        registry_fits(m),
    ensures
        parse_registry(ser_registry(m)) == Some(m),
{
    let s = ser_registry(m);
    assert(s[0] == 'G');
    assert(s.drop_first() =~= ser_num(m.len()) + ser_entries(m));
    assert(ser_entries(m) =~= ser_entries(m) + Seq::<char>::empty());
    lemma_parse_num(m.len(), ser_entries(m));
    lemma_parse_entries(m, Seq::<char>::empty());
}

/// Round-trip fidelity of the workspace document.
pub proof fn lemma_workspace_round_trip(v: Seq<Seq<char>>)
    requires
        fields_fit(v),
    ensures
        parse_workspace(ser_workspace(v)) == Some(v),
{
    let s = ser_workspace(v);
    assert(s[0] == 'W');
    assert(s.drop_first() =~= ser_str_list(v) + Seq::<char>::empty());
    lemma_parse_str_list(v, Seq::<char>::empty());
}

/// Parsing a serialized dependency entry yields the entry and the rest.
proof fn lemma_parse_dep(d: DepModel, rest: Seq<char>)
    requires
        dep_fits(d),
    ensures
        parse_dep(ser_dep(d) + rest) == Some((d, rest)),
{
    assert(ser_dep(d) + rest =~= ser_field(d.key) + (ser_opt_field(d.path) + (ser_field(d.version)
        + (ser_bool(d.optional) + rest))));
    lemma_parse_field(d.key, ser_opt_field(d.path) + (ser_field(d.version) + (ser_bool(d.optional)
        + rest)));
    lemma_parse_opt_field(d.path, ser_field(d.version) + (ser_bool(d.optional) + rest));
    lemma_parse_field(d.version, ser_bool(d.optional) + rest);
    lemma_parse_bool(d.optional, rest);
    assert((DepModel { key: d.key, path: d.path, version: d.version, optional: d.optional })
        =~= d);
}

/// Parsing the concatenation of `v.len()` serialized dependencies yields
/// them all.
proof fn lemma_parse_deps(v: Seq<DepModel>, rest: Seq<char>)
    requires
        forall|i: int| 0 <= i < v.len() ==> #[trigger] dep_fits(v[i]),
    ensures
        parse_deps(ser_deps(v) + rest, v.len()) == Some((v, rest)),
    decreases v.len(),
{
    if v.len() == 0 {
        assert(ser_deps(v) + rest =~= rest);
        assert(v =~= Seq::<DepModel>::empty());
    } else {
        assert(ser_deps(v) + rest =~= ser_dep(v[0]) + (ser_deps(v.drop_first()) + rest));
        lemma_parse_dep(v[0], ser_deps(v.drop_first()) + rest);
        assert(forall|i: int|
            0 <= i < v.drop_first().len() ==> #[trigger] dep_fits(v.drop_first()[i]));
        lemma_parse_deps(v.drop_first(), rest);
        assert(seq![v[0]] + v.drop_first() =~= v);
    }
}

/// Parsing a serialized optional list yields the option and the rest.
proof fn lemma_parse_opt_list(o: Option<Seq<Seq<char>>>, rest: Seq<char>)
    requires
        o matches Some(v) ==> fields_fit(v),
    ensures
        parse_opt_list(ser_opt_list(o) + rest) == Some((o, rest)),
{
    match o {
        None => {
            let s = ser_opt_list(o) + rest;
            assert(s.drop_first() =~= rest);
        },
        Some(v) => {
            let s = ser_opt_list(o) + rest;
            assert(s.drop_first() =~= ser_str_list(v) + rest);
            lemma_parse_str_list(v, rest);
        },
    }
}

/// Round-trip fidelity of the module-manifest document.
pub proof fn lemma_manifest_round_trip(m: ManifestModel)
    requires
        manifest_fits(m),
    ensures
        parse_manifest(ser_manifest(m)) == Some(m),
{
    let t8 = Seq::<char>::empty();
    let t7 = ser_opt_list(m.features) + t8;
    let t6 = ser_deps(m.deps) + t7;
    let t5 = ser_num(m.deps.len()) + t6;
    let t4 = ser_opt_bool(m.publish) + t5;
    let t3 = ser_field(m.edition) + t4;
    let t2 = ser_str_list(m.authors) + t3;
    let t1 = ser_field(m.version) + t2;
    let t0 = ser_field(m.name) + t1;
    let s = ser_manifest(m);
    assert(s[0] == 'M');
    assert(s.drop_first() =~= t0);
    lemma_parse_field(m.name, t1);
    lemma_parse_field(m.version, t2);
    lemma_parse_str_list(m.authors, t3);
    lemma_parse_field(m.edition, t4);
    lemma_parse_opt_bool(m.publish, t5);
    assert(t5 =~= ser_num(m.deps.len()) + t6);
    lemma_parse_num(m.deps.len(), t6);
    lemma_parse_deps(m.deps, t7);
    assert(t7 =~= ser_opt_list(m.features) + t8);
    lemma_parse_opt_list(m.features, t8);
    assert((ManifestModel {
        name: m.name,
        version: m.version,
        authors: m.authors,
        edition: m.edition,
        publish: m.publish,
        deps: m.deps,
        features: m.features,
    }) =~= m);
}

/// Appending one entry extends the serialized concatenation at its end.
proof fn lemma_ser_entries_push(v: Seq<GameEntryModel>, x: GameEntryModel)
    ensures
        ser_entries(v.push(x)) == ser_entries(v) + ser_entry(x),
    decreases v.len(),
{
    if v.len() == 0 {
        assert(v.push(x)[0] == x);
        assert(v.push(x).drop_first() =~= Seq::<GameEntryModel>::empty());
        assert(ser_entries(Seq::<GameEntryModel>::empty()) == Seq::<char>::empty());
        assert(ser_entries(v.push(x)) == ser_entry(x) + Seq::<char>::empty());
        assert(ser_entry(x) + Seq::<char>::empty() =~= ser_entry(x));
        assert(ser_entries(v) + ser_entry(x) =~= ser_entry(x));
    } else {
        assert(v.push(x).drop_first() =~= v.drop_first().push(x));
        lemma_ser_entries_push(v.drop_first(), x);
        assert(v.push(x)[0] == v[0]);
        assert(ser_entries(v.push(x)) =~= ser_entries(v) + ser_entry(x));
    }
}

/// Appending one dependency extends the serialized concatenation at its end.
proof fn lemma_ser_deps_push(v: Seq<DepModel>, x: DepModel)
    ensures
        ser_deps(v.push(x)) == ser_deps(v) + ser_dep(x),
    decreases v.len(),
{
    if v.len() == 0 {
        assert(v.push(x)[0] == x);
        assert(v.push(x).drop_first() =~= Seq::<DepModel>::empty());
        assert(ser_deps(Seq::<DepModel>::empty()) == Seq::<char>::empty());
        assert(ser_deps(v.push(x)) == ser_dep(x) + Seq::<char>::empty());
        assert(ser_dep(x) + Seq::<char>::empty() =~= ser_dep(x));
        assert(ser_deps(v) + ser_dep(x) =~= ser_dep(x));
    } else {
        assert(v.push(x).drop_first() =~= v.drop_first().push(x));
        lemma_ser_deps_push(v.drop_first(), x);
        assert(v.push(x)[0] == v[0]);
        assert(ser_deps(v.push(x)) =~= ser_deps(v) + ser_dep(x));
    }
}

/// Appending one value extends the serialized concatenation at its end.
proof fn lemma_ser_fields_push(v: Seq<Seq<char>>, x: Seq<char>)
    ensures
        ser_fields(v.push(x)) == ser_fields(v) + ser_field(x),
    decreases v.len(),
{
    if v.len() == 0 {
        assert(v.push(x)[0] == x);
        assert(v.push(x).drop_first() =~= Seq::<Seq<char>>::empty());
        assert(ser_fields(Seq::<Seq<char>>::empty()) == Seq::<char>::empty());
        assert(ser_fields(v.push(x)) == ser_field(x) + Seq::<char>::empty());
        assert(ser_field(x) + Seq::<char>::empty() =~= ser_field(x));
        assert(ser_fields(v) + ser_field(x) =~= ser_field(x));
    } else {
        assert(v.push(x).drop_first() =~= v.drop_first().push(x));
        lemma_ser_fields_push(v.drop_first(), x);
        assert(v.push(x)[0] == v[0]);
        assert(ser_fields(v.push(x)) =~= ser_fields(v) + ser_field(x));
    }
}

/// The view of an optional string.
pub open spec fn opt_view(o: Option<String>) -> Option<Seq<char>> {
    match o {
        None => None,
        Some(s) => Some(s@),
    }
}

/// The decimal digit character of a value below ten, as a string slice.
fn digit_str(d: usize) -> (r: &'static str)
    requires
        d < 10,
    ensures
        r@ == seq![digit_char(d as nat)],
{
    match d {
        0 => {
            proof {
                reveal_strlit("0");
            }
            "0"
        },
        1 => {
            proof {
                reveal_strlit("1");
            }
            "1"
        },
        2 => {
            proof {
                reveal_strlit("2");
            }
            "2"
        },
        3 => {
            proof {
                reveal_strlit("3");
            }
            "3"
        },
        4 => {
            proof {
                reveal_strlit("4");
            }
            "4"
        },
        5 => {
            proof {
                reveal_strlit("5");
            }
            "5"
        },
        6 => {
            proof {
                reveal_strlit("6");
            }
            "6"
        },
        7 => {
            proof {
                reveal_strlit("7");
            }
            "7"
        },
        8 => {
            proof {
                reveal_strlit("8");
            }
            "8"
        },
        _ => {
            proof {
                reveal_strlit("9");
            }
            "9"
        },
    }
}

/// Appends the decimal digits of a number, most significant first.
fn append_digits(out: &mut String, n: usize)
    ensures
        final(out)@ == old(out)@ + dec_digits(n as nat),
    decreases n,
{
    if n < 10 {
        out.append(digit_str(n));
        proof {
            assert(dec_digits(n as nat) =~= seq![digit_char(n as nat)]);
        }
    } else {
        let ghost mid = old(out)@ + dec_digits((n / 10) as nat);
        append_digits(out, n / 10);
        out.append(digit_str(n % 10));
        proof {
            assert(dec_digits(n as nat) =~= dec_digits((n / 10) as nat) + seq![digit_char(
                (n % 10) as nat,
            )]);
            assert(out@ =~= old(out)@ + dec_digits(n as nat));
        }
    }
}

/// Appends a serialized number.
fn append_num(out: &mut String, n: usize)
    ensures
        final(out)@ == old(out)@ + ser_num(n as nat),
{
    append_digits(out, n);
    proof {
        reveal_strlit(":");
        assert(":"@ =~= seq![':']);
    }
    out.append(":");
    proof {
        assert(ser_num(n as nat) =~= dec_digits(n as nat) + seq![':']);
        assert(out@ =~= old(out)@ + ser_num(n as nat));
    }
}

/// Appends a serialized string value.
fn append_field(out: &mut String, s: &str)
    ensures
        final(out)@ == old(out)@ + ser_field(s@),
        s@.len() <= usize::MAX,
{
    let n = s.unicode_len();
    append_num(out, n);
    out.append(s);
    proof {
        assert(out@ =~= old(out)@ + ser_field(s@));
    }
}

/// Appends a serialized boolean.
fn append_bool(out: &mut String, b: bool)
    ensures
        final(out)@ == old(out)@ + ser_bool(b),
{
    if b {
        proof {
            reveal_strlit("T");
            assert("T"@ =~= seq!['T']);
        }
        out.append("T");
    } else {
        proof {
            reveal_strlit("F");
            assert("F"@ =~= seq!['F']);
        }
        out.append("F");
    }
}

/// Appends a serialized optional boolean.
fn append_opt_bool(out: &mut String, o: &Option<bool>)
    ensures
        final(out)@ == old(out)@ + ser_opt_bool(*o),
{
    match o {
        None => {
            proof {
                reveal_strlit("N");
                assert("N"@ =~= seq!['N']);
            }
            out.append("N");
        },
        Some(b) => {
            proof {
                reveal_strlit("S");
                assert("S"@ =~= seq!['S']);
            }
            out.append("S");
            append_bool(out, *b);
            proof {
                assert(out@ =~= old(out)@ + ser_opt_bool(*o));
            }
        },
    }
}

/// Appends a serialized optional string value.
fn append_opt_field(out: &mut String, o: &Option<String>)
    ensures
        final(out)@ == old(out)@ + ser_opt_field(opt_view(*o)),
        opt_view(*o) matches Some(s) ==> s.len() <= usize::MAX,
{
    match o {
        None => {
            proof {
                reveal_strlit("N");
                assert("N"@ =~= seq!['N']);
            }
            out.append("N");
        },
        Some(s) => {
            proof {
                reveal_strlit("S");
                assert("S"@ =~= seq!['S']);
            }
            out.append("S");
            append_field(out, s.as_str());
            proof {
                assert(out@ =~= old(out)@ + ser_opt_field(opt_view(*o)));
            }
        },
    }
}

/// Appends a serialized string list.
fn append_str_list(out: &mut String, v: &Vec<String>)
    ensures
        final(out)@ == old(out)@ + ser_str_list(crate::module_manifest::views_of(v@)),
        fields_fit(crate::module_manifest::views_of(v@)),
{
    let ghost model = crate::module_manifest::views_of(v@);
    let n = v.len();
    append_num(out, n);
    for i in 0..n
        invariant
            n == v@.len(),
            model == crate::module_manifest::views_of(v@),
            model.len() == n,
            out@ == old(out)@ + ser_num(n as nat) + ser_fields(model.take(i as int)),
            forall|k: int| 0 <= k < i ==> #[trigger] model[k].len() <= usize::MAX,
    {
        append_field(out, v[i].as_str());
        proof {
            assert(model[i as int] == v@[i as int]@);
            lemma_ser_fields_push(model.take(i as int), model[i as int]);
            assert(model.take(i + 1) =~= model.take(i as int).push(model[i as int]));
            assert(out@ =~= old(out)@ + ser_num(n as nat) + ser_fields(model.take(i + 1)));
        }
    }
    proof {
        assert(model.take(n as int) =~= model);
        assert(out@ =~= old(out)@ + ser_str_list(model));
    }
}

/// Serializes a game registry to its document.
pub fn serialize_registry(reg: &GameRegistry) -> (out: String)
    ensures
        out@ == ser_registry(registry_model(*reg)),
        registry_fits(registry_model(*reg)),
{
    let ghost model = registry_model(*reg);
    let mut out = String::new();
    proof {
        reveal_strlit("G");
        assert("G"@ =~= seq!['G']);
    }
    out.append("G");
    let n = reg.games.len();
    append_num(&mut out, n);
    for i in 0..n
        invariant
            n == reg.games@.len(),
            model == registry_model(*reg),
            model.len() == n,
            out@ == seq!['G'] + ser_num(n as nat) + ser_entries(model.take(i as int)),
            forall|k: int| 0 <= k < i ==> #[trigger] entry_fits(model[k]),
    {
        proof {
            assert(model[i as int] == reg.games@[i as int]@);
        }
        append_field(&mut out, reg.games[i].id.as_str());
        append_field(&mut out, reg.games[i].module_dir.as_str());
        append_field(&mut out, reg.games[i].entry_class.as_str());
        proof {
            lemma_ser_entries_push(model.take(i as int), model[i as int]);
            assert(model.take(i + 1) =~= model.take(i as int).push(model[i as int]));
            assert(out@ =~= seq!['G'] + ser_num(n as nat) + ser_entries(model.take(i + 1)));
        }
    }
    proof {
        assert(model.take(n as int) =~= model);
        assert(out@ =~= ser_registry(model));
    }
    out
}

/// Serializes a workspace manifest to its document.
pub fn serialize_workspace(ws: &crate::workspace::WorkspaceManifest) -> (out: String)
    ensures
        out@ == ser_workspace(workspace_model(*ws)),
        fields_fit(workspace_model(*ws)),
{
    let mut out = String::new();
    proof {
        reveal_strlit("W");
        assert("W"@ =~= seq!['W']);
    }
    out.append("W");
    append_str_list(&mut out, &ws.members);
    proof {
        assert(out@ =~= ser_workspace(workspace_model(*ws)));
    }
    out
}

/// Serializes a module manifest to its document.
#[verifier::rlimit(100)]
pub fn serialize_module_manifest(m: &crate::module_manifest::ModuleManifest) -> (out: String)
    ensures
        out@ == ser_manifest(manifest_model(*m)),
        manifest_fits(manifest_model(*m)),
{
    let ghost model = manifest_model(*m);
    let mut out = String::new();
    proof {
        reveal_strlit("M");
        assert("M"@ =~= seq!['M']);
    }
    out.append("M");
    append_field(&mut out, m.package.name.as_str());
    append_field(&mut out, m.package.version.as_str());
    append_str_list(&mut out, &m.package.authors);
    append_field(&mut out, m.package.edition.as_str());
    append_opt_bool(&mut out, &m.package.publish);
    let ghost head = out@;
    let n = m.dependencies.len();
    append_num(&mut out, n);
    for i in 0..n
        invariant
            n == m.dependencies@.len(),
            model == manifest_model(*m),
            model.deps.len() == n,
            out@ == head + ser_num(n as nat) + ser_deps(model.deps.take(i as int)),
            forall|k: int| 0 <= k < i ==> #[trigger] dep_fits(model.deps[k]),
    {
        proof {
            assert(model.deps[i as int] == dep_model(m.dependencies@[i as int]));
        }
        append_field(&mut out, m.dependencies[i].0.as_str());
        append_opt_field(&mut out, &m.dependencies[i].1.path);
        append_field(&mut out, m.dependencies[i].1.version.as_str());
        append_bool(&mut out, m.dependencies[i].1.optional);
        proof {
            lemma_ser_deps_push(model.deps.take(i as int), model.deps[i as int]);
            assert(model.deps.take(i + 1) =~= model.deps.take(i as int).push(
                model.deps[i as int],
            ));
            assert(out@ =~= head + ser_num(n as nat) + ser_deps(model.deps.take(i + 1)));
        }
    }
    proof {
        assert(model.deps.take(n as int) =~= model.deps);
    }
    match &m.features {
        None => {
            proof {
                reveal_strlit("N");
                assert("N"@ =~= seq!['N']);
            }
            out.append("N");
            proof {
                assert(model.features is None);
                assert(ser_opt_list(model.features) == seq!['N']);
                assert(out@ =~= head + ser_num(n as nat) + ser_deps(model.deps) + ser_opt_list(
                    model.features,
                ));
            }
        },
        Some(f) => {
            proof {
                reveal_strlit("S");
                assert("S"@ =~= seq!['S']);
            }
            out.append("S");
            append_str_list(&mut out, &f.default);
            proof {
                assert(model.features == Some(crate::module_manifest::views_of(f.default@)));
                assert(ser_opt_list(model.features) =~= seq!['S'] + ser_str_list(
                    crate::module_manifest::views_of(f.default@),
                ));
                assert(out@ =~= head + ser_num(n as nat) + ser_deps(model.deps) + ser_opt_list(
                    model.features,
                ));
            }
        },
    }
    proof {
        assert(out@ =~= ser_manifest(model));
    }
    out
}

/// The value of a decimal digit character.
fn digit_value(c: char) -> (r: Option<usize>)
    ensures
        match r {
            Some(d) => is_digit_char(c) && d < 10 && d as nat == digit_val(c),
            None => !is_digit_char(c),
        },
{
    match c {
        '0' => Some(0),
        '1' => Some(1),
        '2' => Some(2),
        '3' => Some(3),
        '4' => Some(4),
        '5' => Some(5),
        '6' => Some(6),
        '7' => Some(7),
        '8' => Some(8),
        '9' => Some(9),
        _ => None,
    }
}

/// Parses a number at a position; on success returns the value and the
/// position just past the separator.
fn parse_digits_at(s: &str, start: usize) -> (r: Option<(usize, usize)>)
    requires
        start <= s@.len(),
    ensures
        match r {
            Some(pr) => pr.1 <= s@.len() && parse_digits(s@.skip(start as int), 0) == Some(
                ((pr.0 as nat), s@.skip(pr.1 as int)),
            ),
            None => parse_digits(s@.skip(start as int), 0) is None,
        },
{
    let len = s.unicode_len();
    let mut idx = start;
    let mut acc: usize = 0;
    loop
        invariant
            start <= idx <= len,
            len == s@.len(),
            parse_digits(s@.skip(start as int), 0) == parse_digits(s@.skip(idx as int), acc as nat),
        decreases len - idx,
    {
        if idx == len {
            proof {
                assert(s@.skip(idx as int) =~= Seq::<char>::empty());
            }
            return None;
        }
        let c = s.get_char(idx);
        proof {
            assert(s@.skip(idx as int)[0] == c);
            assert(s@.skip(idx as int).drop_first() =~= s@.skip(idx as int + 1));
        }
        if c == ':' {
            return Some((acc, idx + 1));
        }
        match digit_value(c) {
            None => {
                return None;
            },
            Some(d) => {
                match acc.checked_mul(10) {
                    None => {
                        proof {
                            assert(acc * 10 + digit_val(c) > usize::MAX);
                        }
                        return None;
                    },
                    Some(m) => {
                        match m.checked_add(d) {
                            None => {
                                return None;
                            },
                            Some(a2) => {
                                acc = a2;
                                idx = idx + 1;
                            },
                        }
                    },
                }
            },
        }
    }
}

/// Parses a length-prefixed string value at a position.
fn parse_field_at(s: &str, start: usize) -> (r: Option<(String, usize)>)
    requires
        start <= s@.len(),
    ensures
        match r {
            Some(pr) => pr.1 <= s@.len() && parse_field(s@.skip(start as int)) == Some(
                (pr.0@, s@.skip(pr.1 as int)),
            ),
            None => parse_field(s@.skip(start as int)) is None,
        },
{
    match parse_digits_at(s, start) {
        None => None,
        Some((n, j)) => {
            let len = s.unicode_len();
            if len - j >= n {
                let sub = s.substring_char(j, j + n);
                proof {
                    assert(sub@ =~= s@.skip(j as int).take(n as int));
                    assert(s@.skip(j as int).skip(n as int) =~= s@.skip(j as int + n as int));
                }
                Some((String::from_str(sub), j + n))
            } else {
                proof {
                    assert(s@.skip(j as int).len() < n as nat);
                }
                None
            }
        },
    }
}

/// Parses one boolean at a position.
fn parse_bool_at(s: &str, start: usize) -> (r: Option<(bool, usize)>)
    requires
        start <= s@.len(),
    ensures
        match r {
            Some(pr) => pr.1 <= s@.len() && parse_bool(s@.skip(start as int)) == Some(
                (pr.0, s@.skip(pr.1 as int)),
            ),
            None => parse_bool(s@.skip(start as int)) is None,
        },
{
    let len = s.unicode_len();
    if start == len {
        proof {
            assert(s@.skip(start as int) =~= Seq::<char>::empty());
        }
        return None;
    }
    let c = s.get_char(start);
    proof {
        assert(s@.skip(start as int)[0] == c);
        assert(s@.skip(start as int).drop_first() =~= s@.skip(start as int + 1));
    }
    if c == 'T' {
        Some((true, start + 1))
    } else if c == 'F' {
        Some((false, start + 1))
    } else {
        None
    }
}

/// Parses one optional boolean at a position.
fn parse_opt_bool_at(s: &str, start: usize) -> (r: Option<(Option<bool>, usize)>)
    requires
        start <= s@.len(),
    ensures
        match r {
            Some(pr) => pr.1 <= s@.len() && parse_opt_bool(s@.skip(start as int)) == Some(
                (pr.0, s@.skip(pr.1 as int)),
            ),
            None => parse_opt_bool(s@.skip(start as int)) is None,
        },
{
    let len = s.unicode_len();
    if start == len {
        proof {
            assert(s@.skip(start as int) =~= Seq::<char>::empty());
        }
        return None;
    }
    let c = s.get_char(start);
    proof {
        assert(s@.skip(start as int)[0] == c);
        assert(s@.skip(start as int).drop_first() =~= s@.skip(start as int + 1));
    }
    if c == 'N' {
        Some((None, start + 1))
    } else if c == 'S' {
        match parse_bool_at(s, start + 1) {
            None => None,
            Some((b, j)) => Some((Some(b), j)),
        }
    } else {
        None
    }
}

/// Parses one optional string value at a position.
fn parse_opt_field_at(s: &str, start: usize) -> (r: Option<(Option<String>, usize)>)
    requires
        start <= s@.len(),
    ensures
        match r {
            Some(pr) => pr.1 <= s@.len() && parse_opt_field(s@.skip(start as int)) == Some(
                (opt_view(pr.0), s@.skip(pr.1 as int)),
            ),
            None => parse_opt_field(s@.skip(start as int)) is None,
        },
{
    let len = s.unicode_len();
    if start == len {
        proof {
            assert(s@.skip(start as int) =~= Seq::<char>::empty());
        }
        return None;
    }
    let c = s.get_char(start);
    proof {
        assert(s@.skip(start as int)[0] == c);
        assert(s@.skip(start as int).drop_first() =~= s@.skip(start as int + 1));
    }
    if c == 'N' {
        Some((None, start + 1))
    } else if c == 'S' {
        match parse_field_at(s, start + 1) {
            None => None,
            Some((v, j)) => Some((Some(v), j)),
        }
    } else {
        None
    }
}

/// Parses a counted string list at a position.
fn parse_str_list_at(s: &str, start: usize) -> (r: Option<(Vec<String>, usize)>)
    requires
        start <= s@.len(),
    ensures
        match r {
            Some(pr) => pr.1 <= s@.len() && parse_str_list(s@.skip(start as int)) == Some(
                (crate::module_manifest::views_of(pr.0@), s@.skip(pr.1 as int)),
            ),
            None => parse_str_list(s@.skip(start as int)) is None,
        },
{
    match parse_digits_at(s, start) {
        None => None,
        Some((k, pd)) => {
            let mut v: Vec<String> = Vec::new();
            let mut pos = pd;
            for cnt in 0..k
                invariant
                    start <= s@.len(),
                    pd <= s@.len(),
                    pos <= s@.len(),
                    cnt == v@.len(),
                    cnt <= k,
                    parse_digits(s@.skip(start as int), 0) == Some(
                        ((k as nat), s@.skip(pd as int)),
                    ),
                    parse_fields(s@.skip(pd as int), k as nat) == (match parse_fields(
                        s@.skip(pos as int),
                        (k - cnt) as nat,
                    ) {
                        None => None,
                        Some((vs, rr)) => Some(
                            (crate::module_manifest::views_of(v@) + vs, rr),
                        ),
                    }),
            {
                match parse_field_at(s, pos) {
                    None => {
                        proof {
                            assert((k - cnt) as nat != 0);
                            assert(parse_fields(s@.skip(pos as int), (k - cnt) as nat) is None);
                            assert(parse_fields(s@.skip(pd as int), k as nat) is None);
                            assert(parse_str_list(s@.skip(start as int)) is None);
                        }
                        return None;
                    },
                    Some((f, p2)) => {
                        proof {
                            let ghost v0 = v@;
                            assert(crate::module_manifest::views_of(v0.push(f)) =~= crate::module_manifest::views_of(
                                v0,
                            ).push(f@));
                            assert forall|vs: Seq<Seq<char>>|
                                true implies crate::module_manifest::views_of(v0) + (seq![f@]
                                + vs) =~= crate::module_manifest::views_of(v0.push(f)) + vs by {}
                        }
                        v.push(f);
                        pos = p2;
                    },
                }
            }
            proof {
                assert(parse_fields(s@.skip(pos as int), 0) == Some(
                    (Seq::<Seq<char>>::empty(), s@.skip(pos as int)),
                ));
                assert(crate::module_manifest::views_of(v@) + Seq::<Seq<char>>::empty()
                    =~= crate::module_manifest::views_of(v@));
            }
            Some((v, pos))
        },
    }
}

/// The models of a sequence of registry entries.
pub open spec fn entries_model(v: Seq<GameEntry>) -> Seq<GameEntryModel> {
    v.map_values(|e: GameEntry| e@)
}

/// The models of a sequence of dependency entries.
pub open spec fn deps_model(v: Seq<(String, crate::module_manifest::DepSpec)>) -> Seq<DepModel> {
    v.map_values(|p: (String, crate::module_manifest::DepSpec)| dep_model(p))
}

/// The model of an optional feature list.
pub open spec fn opt_list_view(o: Option<Vec<String>>) -> Option<Seq<Seq<char>>> {
    match o {
        None => None,
        Some(v) => Some(crate::module_manifest::views_of(v@)),
    }
}

/// Are the entry ids pairwise distinct in the model?
pub open spec fn ids_unique(m: Seq<GameEntryModel>) -> bool {
    forall|i: int, j: int| 0 <= i < j < m.len() ==> m[i].id != m[j].id
}

/// Are the dependency keys pairwise distinct in the model?
pub open spec fn dep_keys_unique(d: Seq<DepModel>) -> bool {
    forall|i: int, j: int| 0 <= i < j < d.len() ==> d[i].key != d[j].key
}

/// Parses exactly `k` registry entries at a position.
fn parse_entries_at(s: &str, start: usize, k: usize) -> (r: Option<(Vec<GameEntry>, usize)>)
    requires
        start <= s@.len(),
    ensures
        match r {
            Some(pr) => pr.1 <= s@.len() && parse_entries(s@.skip(start as int), k as nat) == Some(
                (entries_model(pr.0@), s@.skip(pr.1 as int)),
            ),
            None => parse_entries(s@.skip(start as int), k as nat) is None,
        },
{
    let mut v: Vec<GameEntry> = Vec::new();
    let mut pos = start;
    for cnt in 0..k
        invariant
            start <= s@.len(),
            pos <= s@.len(),
            cnt == v@.len(),
            parse_entries(s@.skip(start as int), k as nat) == (match parse_entries(
                s@.skip(pos as int),
                (k - cnt) as nat,
            ) {
                None => None,
                Some((es, rr)) => Some((entries_model(v@) + es, rr)),
            }),
    {
        let id = match parse_field_at(s, pos) {
            None => {
                proof {
                    assert(parse_entry(s@.skip(pos as int)) is None);
                }
                return None;
            },
            Some(x) => x,
        };
        let md = match parse_field_at(s, id.1) {
            None => {
                proof {
                    assert(parse_entry(s@.skip(pos as int)) is None);
                }
                return None;
            },
            Some(x) => x,
        };
        let ec = match parse_field_at(s, md.1) {
            None => {
                proof {
                    assert(parse_entry(s@.skip(pos as int)) is None);
                }
                return None;
            },
            Some(x) => x,
        };
        let p3 = ec.1;
        let entry = GameEntry { id: id.0, module_dir: md.0, entry_class: ec.0 };
        proof {
            assert(parse_entry(s@.skip(pos as int)) == Some((entry@, s@.skip(p3 as int))));
            let ghost v0 = v@;
            assert(entries_model(v0.push(entry)) =~= entries_model(v0).push(entry@));
            assert forall|es: Seq<GameEntryModel>|
                true implies entries_model(v0) + (seq![entry@] + es) =~= entries_model(
                v0.push(entry),
            ) + es by {}
        }
        v.push(entry);
        pos = p3;
    }
    proof {
        assert(parse_entries(s@.skip(pos as int), 0) == Some(
            (Seq::<GameEntryModel>::empty(), s@.skip(pos as int)),
        ));
        assert(entries_model(v@) + Seq::<GameEntryModel>::empty() =~= entries_model(v@));
    }
    Some((v, pos))
}

/// Parses exactly `k` dependency entries at a position.
fn parse_deps_at(s: &str, start: usize, k: usize) -> (r: Option<
    (Vec<(String, crate::module_manifest::DepSpec)>, usize),
>)
    requires
        start <= s@.len(),
    ensures
        match r {
            Some(pr) => pr.1 <= s@.len() && parse_deps(s@.skip(start as int), k as nat) == Some(
                (deps_model(pr.0@), s@.skip(pr.1 as int)),
            ),
            None => parse_deps(s@.skip(start as int), k as nat) is None,
        },
{
    let mut v: Vec<(String, crate::module_manifest::DepSpec)> = Vec::new();
    let mut pos = start;
    for cnt in 0..k
        invariant
            start <= s@.len(),
            pos <= s@.len(),
            cnt == v@.len(),
            parse_deps(s@.skip(start as int), k as nat) == (match parse_deps(
                s@.skip(pos as int),
                (k - cnt) as nat,
            ) {
                None => None,
                Some((ds, rr)) => Some((deps_model(v@) + ds, rr)),
            }),
    {
        let key = match parse_field_at(s, pos) {
            None => {
                proof {
                    assert(parse_dep(s@.skip(pos as int)) is None);
                }
                return None;
            },
            Some(x) => x,
        };
        let path = match parse_opt_field_at(s, key.1) {
            None => {
                proof {
                    assert(parse_dep(s@.skip(pos as int)) is None);
                }
                return None;
            },
            Some(x) => x,
        };
        let ver = match parse_field_at(s, path.1) {
            None => {
                proof {
                    assert(parse_dep(s@.skip(pos as int)) is None);
                }
                return None;
            },
            Some(x) => x,
        };
        let opt = match parse_bool_at(s, ver.1) {
            None => {
                proof {
                    assert(parse_dep(s@.skip(pos as int)) is None);
                }
                return None;
            },
            Some(x) => x,
        };
        let p4 = opt.1;
        let pair = (
            key.0,
            crate::module_manifest::DepSpec { path: path.0, version: ver.0, optional: opt.0 },
        );
        proof {
            assert(parse_dep(s@.skip(pos as int)) == Some((dep_model(pair), s@.skip(p4 as int))));
            let ghost v0 = v@;
            assert(deps_model(v0.push(pair)) =~= deps_model(v0).push(dep_model(pair)));
            assert forall|ds: Seq<DepModel>|
                true implies deps_model(v0) + (seq![dep_model(pair)] + ds) =~= deps_model(
                v0.push(pair),
            ) + ds by {}
        }
        v.push(pair);
        pos = p4;
    }
    proof {
        assert(parse_deps(s@.skip(pos as int), 0) == Some(
            (Seq::<DepModel>::empty(), s@.skip(pos as int)),
        ));
        assert(deps_model(v@) + Seq::<DepModel>::empty() =~= deps_model(v@));
    }
    Some((v, pos))
}

/// Are the entry ids of the vector pairwise distinct?
fn game_ids_unique(v: &Vec<GameEntry>) -> (b: bool)
    ensures
        b == ids_unique(entries_model(v@)),
{
    let n = v.len();
    for i in 0..n
        invariant
            n == v@.len(),
            forall|a: int, b2: int| 0 <= a < b2 < i ==> v@[a].id@ != v@[b2].id@,
    {
        for j in 0..i
            invariant
                i < n,
                n == v@.len(),
                forall|a: int, b2: int| 0 <= a < b2 < i ==> v@[a].id@ != v@[b2].id@,
                forall|a: int| 0 <= a < j ==> v@[a].id@ != v@[i as int].id@,
        {
            if str_eq(v[j].id.as_str(), v[i].id.as_str()) {
                proof {
                    assert(entries_model(v@)[j as int].id == entries_model(v@)[i as int].id);
                }
                return false;
            }
        }
    }
    proof {
        assert forall|a: int, b2: int|
            0 <= a < b2 < entries_model(v@).len() implies entries_model(v@)[a].id != entries_model(
            v@,
        )[b2].id by {
            assert(v@[a].id@ != v@[b2].id@);
        }
    }
    true
}

/// Are the dependency keys of the vector pairwise distinct?
fn dependency_keys_unique(v: &Vec<(String, crate::module_manifest::DepSpec)>) -> (b: bool)
    ensures
        b == dep_keys_unique(deps_model(v@)),
{
    let n = v.len();
    for i in 0..n
        invariant
            n == v@.len(),
            forall|a: int, b2: int| 0 <= a < b2 < i ==> v@[a].0@ != v@[b2].0@,
    {
        for j in 0..i
            invariant
                i < n,
                n == v@.len(),
                forall|a: int, b2: int| 0 <= a < b2 < i ==> v@[a].0@ != v@[b2].0@,
                forall|a: int| 0 <= a < j ==> v@[a].0@ != v@[i as int].0@,
        {
            if str_eq(v[j].0.as_str(), v[i].0.as_str()) {
                proof {
                    assert(deps_model(v@)[j as int].key == deps_model(v@)[i as int].key);
                }
                return false;
            }
        }
    }
    proof {
        assert forall|a: int, b2: int|
            0 <= a < b2 < deps_model(v@).len() implies deps_model(v@)[a].key != deps_model(
            v@,
        )[b2].key by {
            assert(v@[a].0@ != v@[b2].0@);
        }
    }
    true
}

/// Reads a game registry back from its document.  Fails with `SchemaError`
/// exactly when the text is not a registry document, or when the document
/// violates the store invariant (two entries sharing an id).
pub fn deserialize_registry(s: &str) -> (r: Result<GameRegistry, crate::errors::ScaffoldError>)
    ensures
        match r {
            Ok(reg) => parse_registry(s@) == Some(registry_model(reg)) && reg.wf(),
            Err(e) => e == crate::errors::ScaffoldError::SchemaError && (parse_registry(s@) is None
                || (parse_registry(s@) matches Some(m) && !ids_unique(m))),
        },
{
    let len = s.unicode_len();
    if len == 0 {
        return Err(crate::errors::ScaffoldError::SchemaError);
    }
    if s.get_char(0) != 'G' {
        return Err(crate::errors::ScaffoldError::SchemaError);
    }
    proof {
        assert(s@.skip(1) =~= s@.drop_first());
    }
    let kp = match parse_digits_at(s, 1) {
        None => {
            return Err(crate::errors::ScaffoldError::SchemaError);
        },
        Some(x) => x,
    };
    let ep = match parse_entries_at(s, kp.1, kp.0) {
        None => {
            return Err(crate::errors::ScaffoldError::SchemaError);
        },
        Some(x) => x,
    };
    let pos = ep.1;
    if pos != len {
        proof {
            assert(s@.skip(pos as int).len() > 0);
        }
        return Err(crate::errors::ScaffoldError::SchemaError);
    }
    proof {
        assert(s@.skip(pos as int) =~= Seq::<char>::empty());
        assert(parse_registry(s@) == Some(entries_model(ep.0@)));
    }
    let unique = game_ids_unique(&ep.0);
    if !unique {
        return Err(crate::errors::ScaffoldError::SchemaError);
    }
    let reg = GameRegistry { games: ep.0 };
    proof {
        assert(registry_model(reg) == entries_model(reg.games@));
        assert forall|i: int, j: int|
            0 <= i < j < reg.games@.len() implies reg.games@[i].id@ != reg.games@[j].id@ by {
            assert(entries_model(reg.games@)[i].id != entries_model(reg.games@)[j].id);
        }
    }
    Ok(reg)
}

/// Reads a workspace manifest back from its document.  Fails with
/// `SchemaError` exactly when the text is not a workspace document.
pub fn deserialize_workspace(s: &str) -> (r: Result<
    crate::workspace::WorkspaceManifest,
    crate::errors::ScaffoldError,
>)
    ensures
        match r {
            Ok(ws) => parse_workspace(s@) == Some(workspace_model(ws)),
            Err(e) => e == crate::errors::ScaffoldError::SchemaError && parse_workspace(
                s@,
            ) is None,
        },
{
    let len = s.unicode_len();
    if len == 0 {
        return Err(crate::errors::ScaffoldError::SchemaError);
    }
    if s.get_char(0) != 'W' {
        return Err(crate::errors::ScaffoldError::SchemaError);
    }
    proof {
        assert(s@.skip(1) =~= s@.drop_first());
    }
    let lp = match parse_str_list_at(s, 1) {
        None => {
            return Err(crate::errors::ScaffoldError::SchemaError);
        },
        Some(x) => x,
    };
    let pos = lp.1;
    if pos != len {
        proof {
            assert(s@.skip(pos as int).len() > 0);
        }
        return Err(crate::errors::ScaffoldError::SchemaError);
    }
    proof {
        assert(s@.skip(pos as int) =~= Seq::<char>::empty());
    }
    Ok(crate::workspace::WorkspaceManifest { members: lp.0 })
}

/// Reads a module manifest back from its document.  Fails with
/// `SchemaError` exactly when the text is not a module-manifest document,
/// or when the document violates the store invariant (two dependency
/// entries sharing a key).
#[verifier::rlimit(100)]
pub fn deserialize_module_manifest(s: &str) -> (r: Result<
    crate::module_manifest::ModuleManifest,
    crate::errors::ScaffoldError,
>)
    ensures
        match r {
            Ok(mm) => parse_manifest(s@) == Some(manifest_model(mm)) && mm.wf(),
            Err(e) => e == crate::errors::ScaffoldError::SchemaError && (parse_manifest(s@) is None
                || (parse_manifest(s@) matches Some(m) && !dep_keys_unique(m.deps))),
        },
{
    let len = s.unicode_len();
    if len == 0 {
        return Err(crate::errors::ScaffoldError::SchemaError);
    }
    if s.get_char(0) != 'M' {
        return Err(crate::errors::ScaffoldError::SchemaError);
    }
    proof {
        assert(s@.skip(1) =~= s@.drop_first());
    }
    let name = match parse_field_at(s, 1) {
        None => {
            return Err(crate::errors::ScaffoldError::SchemaError);
        },
        Some(x) => x,
    };
    let ver = match parse_field_at(s, name.1) {
        None => {
            return Err(crate::errors::ScaffoldError::SchemaError);
        },
        Some(x) => x,
    };
    let authors = match parse_str_list_at(s, ver.1) {
        None => {
            return Err(crate::errors::ScaffoldError::SchemaError);
        },
        Some(x) => x,
    };
    let ed = match parse_field_at(s, authors.1) {
        None => {
            return Err(crate::errors::ScaffoldError::SchemaError);
        },
        Some(x) => x,
    };
    let pb = match parse_opt_bool_at(s, ed.1) {
        None => {
            return Err(crate::errors::ScaffoldError::SchemaError);
        },
        Some(x) => x,
    };
    let kp = match parse_digits_at(s, pb.1) {
        None => {
            return Err(crate::errors::ScaffoldError::SchemaError);
        },
        Some(x) => x,
    };
    let dp = match parse_deps_at(s, kp.1, kp.0) {
        None => {
            return Err(crate::errors::ScaffoldError::SchemaError);
        },
        Some(x) => x,
    };
    let fl = match parse_opt_list_at(s, dp.1) {
        None => {
            return Err(crate::errors::ScaffoldError::SchemaError);
        },
        Some(x) => x,
    };
    let pos = fl.1;
    if pos != len {
        proof {
            assert(s@.skip(pos as int).len() > 0);
        }
        return Err(crate::errors::ScaffoldError::SchemaError);
    }
    proof {
        assert(s@.skip(pos as int) =~= Seq::<char>::empty());
    }
    let unique = dependency_keys_unique(&dp.0);
    let ghost parsed = parse_manifest(s@);
    if !unique {
        return Err(crate::errors::ScaffoldError::SchemaError);
    }
    let mm = crate::module_manifest::ModuleManifest {
        package: crate::module_manifest::PackageInfo {
            name: name.0,
            version: ver.0,
            authors: authors.0,
            edition: ed.0,
            publish: pb.0,
        },
        dependencies: dp.0,
        features: match fl.0 {
            None => None,
            Some(d) => Some(crate::module_manifest::FeatureList { default: d }),
        },
    };
    proof {
        assert(manifest_model(mm).deps == deps_model(mm.dependencies@));
        assert(parse_manifest(s@) == Some(manifest_model(mm)));
        assert forall|i: int, j: int|
            0 <= i < j < mm.dependencies@.len() implies mm.dependencies@[i].0@
            != mm.dependencies@[j].0@ by {
            assert(deps_model(mm.dependencies@)[i].key != deps_model(mm.dependencies@)[j].key);
        }
    }
    Ok(mm)
}

/// Parses one optional string list at a position.
fn parse_opt_list_at(s: &str, start: usize) -> (r: Option<(Option<Vec<String>>, usize)>)
    requires
        start <= s@.len(),
    ensures
        match r {
            Some(pr) => pr.1 <= s@.len() && parse_opt_list(s@.skip(start as int)) == Some(
                (opt_list_view(pr.0), s@.skip(pr.1 as int)),
            ),
            None => parse_opt_list(s@.skip(start as int)) is None,
        },
{
    let len = s.unicode_len();
    if start == len {
        proof {
            assert(s@.skip(start as int) =~= Seq::<char>::empty());
        }
        return None;
    }
    let c = s.get_char(start);
    proof {
        assert(s@.skip(start as int)[0] == c);
        assert(s@.skip(start as int).drop_first() =~= s@.skip(start as int + 1));
    }
    if c == 'N' {
        Some((None, start + 1))
    } else if c == 'S' {
        match parse_str_list_at(s, start + 1) {
            None => None,
            Some((v, j)) => Some((Some(v), j)),
        }
    } else {
        None
    }
}

} // verus!
