//! Inputs for measuring how much of a compiler under test the generated
//! programs reach, and the reading of its line-coverage report.

use crate::ast::{commands_fits, Commands, Shape};
use crate::compiler_gen::{default_array_names, default_names, gen_commands, CompilerContext};
use crate::print::show_commands;
use crate::random::{choose_item, seed_from_u64};
use crate::xml::{attribute_value, parse_xml, parsed_xml, text_is, XmlElement, XmlNode};
use vstd::prelude::*;

verus! {

/// Whether a program is to be compiled for deterministic or
/// nondeterministic execution.
#[derive(Clone, Copy, Debug, PartialEq, Eq, Structural)]
pub enum Determinism {
    Deterministic,
    NonDeterministic,
}

/// `serde_json::Error`.
#[verifier::external_type_specification]
#[verifier::external_body]
pub struct ExJsonError(serde_json::Error);

pub open spec fn hex_digit(d: int) -> char {
    if d < 10 {
        crate::print::digit_char(d)
    } else if d == 10 {
        'a'
    } else if d == 11 {
        'b'
    } else if d == 12 {
        'c'
    } else if d == 13 {
        'd'
    } else if d == 14 {
        'e'
    } else {
        'f'
    }
}

/// How a JSON string writes one character: `"` and `\` and the control
/// characters below U+0020 escaped (with the short forms for backspace,
/// tab, line feed, form feed and carriage return), any other character as
/// it is.
pub open spec fn json_escape(c: char) -> Seq<char> {
    if c == '"' {
        seq!['\\', '"']
    } else if c == '\\' {
        seq!['\\', '\\']
    } else if c == '\u{8}' {
        seq!['\\', 'b']
    } else if c == '\t' {
        seq!['\\', 't']
    } else if c == '\n' {
        seq!['\\', 'n']
    } else if c == '\u{c}' {
        seq!['\\', 'f']
    } else if c == '\r' {
        seq!['\\', 'r']
    } else if (c as int) < 0x20 {
        seq!['\\', 'u', '0', '0', hex_digit((c as int) / 16), hex_digit((c as int) % 16)]
    } else {
        seq![c]
    }
}

pub open spec fn json_escape_all(s: Seq<char>) -> Seq<char>
    decreases s.len(),
{
    if s.len() == 0 {
        seq![]
    } else {
        json_escape_all(s.drop_last()) + json_escape(s.last())
    }
}

/// `s` as a JSON string literal.
pub open spec fn json_string_literal(s: Seq<char>) -> Seq<char> {
    seq!['"'] + json_escape_all(s) + seq!['"']
}

/// `serde_json::to_string` on a `String`: the JSON string literal of `s`.
/// Serialising a string does not fail.
#[verifier::external_body]
fn json_to_string(s: &String) -> (r: Result<String, serde_json::Error>)
    ensures
        r is Ok,
        r matches Ok(v) ==> v@ == json_string_literal(s@),
{
    serde_json::to_string(s)
}

/// `s` with each `"` written `\"`.
pub open spec fn escape_quotes(s: Seq<char>) -> Seq<char>
    decreases s.len(),
{
    if s.len() == 0 {
        seq![]
    } else {
        escape_quotes(s.drop_last()) + if s.last() == '"' {
            seq!['\\', '"']
        } else {
            seq![s.last()]
        }
    }
}

/// Reads back a text in which each `"` is written `\"`: from the end, a
/// `\"` is read as `"` and any other character as itself.
pub open spec fn unescape_quotes(t: Seq<char>) -> Seq<char>
    decreases t.len(),
{
    if t.len() == 0 {
        seq![]
    } else if t.len() >= 2 && t.last() == '"' && t[t.len() - 2] == '\\' {
        unescape_quotes(t.take(t.len() - 2)) + seq!['"']
    } else {
        unescape_quotes(t.drop_last()) + seq![t.last()]
    }
}

/// Escaping quotes loses nothing: the escaped text reads back as the text,
/// and every `"` in it follows a `\`.
pub proof fn lemma_escape_quotes(s: Seq<char>)
    ensures
        unescape_quotes(escape_quotes(s)) == s,
        forall|i: int|
            0 <= i < escape_quotes(s).len() && #[trigger] escape_quotes(s)[i] == '"' ==> i >= 1
                && escape_quotes(s)[i - 1] == '\\',
    decreases s.len(),
{
    if s.len() > 0 {
        let init = s.drop_last();
        let c = s.last();
        lemma_escape_quotes(init);
        let e = escape_quotes(init);
        let t = escape_quotes(s);
        if c == '"' {
            assert(t == e + seq!['\\', '"']);
            assert(t.take(t.len() - 2) =~= e);
            assert forall|i: int| 0 <= i < t.len() && #[trigger] t[i] == '"' implies i >= 1 && t[i
                - 1] == '\\' by {
                if i < e.len() {
                    assert(t[i] == e[i]);
                    assert(t[i - 1] == e[i - 1]);
                }
            }
        } else {
            assert(t == e + seq![c]);
            assert(t.drop_last() =~= e);
            assert forall|i: int| 0 <= i < t.len() && #[trigger] t[i] == '"' implies i >= 1 && t[i
                - 1] == '\\' by {
                if i < e.len() {
                    assert(t[i] == e[i]);
                    assert(t[i - 1] == e[i - 1]);
                }
            }
        }
        assert(s =~= init + seq![c]);
    } else {
        assert(escape_quotes(s) =~= Seq::<char>::empty());
    }
}

/// `str::replace('"', "\\\"")`: each `"` replaced by `\"`.
#[verifier::external_body]
fn replace_quotes(s: &str) -> (r: String)
    ensures
        r@ == escape_quotes(s@),
{
    s.replace('"', "\\\"")
}

pub open spec fn determinism_name(d: Determinism) -> Seq<char> {
    match d {
        Determinism::Deterministic => "Deterministic"@,
        Determinism::NonDeterministic => "NonDeterministic"@,
    }
}

/// The compiler input as JSON, before its quotes are escaped.
pub open spec fn compiler_input_json(commands: Commands, determinism: Determinism) -> Seq<char> {
    "{\"commands\":"@ + json_string_literal(show_commands(commands)) + ",\"determinism\":\""@
        + determinism_name(determinism) + "\"}"@
}

fn put(out: &mut String, s: &str)
    ensures
        final(out)@ == old(out)@ + s@,
{
    out.append(s);
}

/// The input `{"commands": ..., "determinism": ...}` that a compiler under
/// test reads: the program's concrete syntax as a JSON string and the
/// determinism's name, with every `"` then escaped as `\"` so that the whole
/// can be passed as one command-line argument.
pub fn to_fsharp_compiler_json(commands: &Commands, determinism: Determinism) -> (s: String)
    ensures
        s@ == escape_quotes(compiler_input_json(*commands, determinism)),
{
    let text = commands.to_gcl_string();
    let quoted = json_to_string(&text).unwrap();
    let mut out = String::new();
    put(&mut out, "{\"commands\":");
    put(&mut out, quoted.as_str());
    put(&mut out, ",\"determinism\":\"");
    match determinism {
        Determinism::Deterministic => put(&mut out, "Deterministic"),
        Determinism::NonDeterministic => put(&mut out, "NonDeterministic"),
    }
    put(&mut out, "\"}");
    assert(out@ =~= compiler_input_json(*commands, determinism));
    replace_quotes(out.as_str())
}

/// What a program of the default compiler-environment context may hold:
/// every construct, over the default variable and array names.
pub open spec fn default_compiler_shape() -> Shape {
    Shape {
        loops: true,
        division: true,
        unary_minus: true,
        arrays: true,
        names: default_names(),
        array_names: default_array_names(),
    }
}

/// The compiler input for one seed: a program drawn with 30 fuel under the
/// default context, and a determinism drawn at random from the same
/// generator, as the pair of the environment's name and its JSON input.
pub fn compiler_input_new_gen(seed: usize) -> (r: (String, String))
    ensures
        r.0@ == "Compiler"@,
        exists|c: Commands, d: Determinism|
            {
                &&& commands_fits(c, default_compiler_shape())
                &&& 1 <= c.0.len() <= 10
                &&& r.1@ == escape_quotes(compiler_input_json(c, d))
            },
{
    let mut rng = seed_from_u64(seed as u64);
    let mut cx = CompilerContext { fuel: 30, ..CompilerContext::default() };
    assert(cx.shape() == default_compiler_shape());
    let commands = gen_commands(&mut cx, &mut rng);
    let choices = vec![Determinism::Deterministic, Determinism::NonDeterministic];
    let determinism = *choose_item(&mut rng, &choices).unwrap();
    let json = to_fsharp_compiler_json(&commands, determinism);
    (String::from_str("Compiler"), json)
}

} // verus!

verus! {

/// The value of a non-empty run of decimal digits.
pub open spec fn digits_value(s: Seq<char>) -> int
    decreases s.len(),
{
    if s.len() == 0 {
        0
    } else {
        digits_value(s.drop_last()) * 10 + (s.last() as int - '0' as int)
    }
}

pub open spec fn all_digits(s: Seq<char>) -> bool {
    forall|i: int| 0 <= i < s.len() ==> '0' <= #[trigger] s[i] <= '9'
}

/// What `str::parse` reads as an unsigned integer: an optional `+`
/// followed by one or more decimal digits; `None` for any other text.
pub open spec fn unsigned_value(s: Seq<char>) -> Option<int> {
    let d = if s.len() > 0 && s[0] == '+' {
        s.drop_first()
    } else {
        s
    };
    if d.len() > 0 && all_digits(d) {
        Some(digits_value(d))
    } else {
        None
    }
}

/// `str::parse::<u64>`: the value of the text where it is an unsigned
/// decimal that fits in a `u64`, else `None` (the error dropped).
#[verifier::external_body]
fn parse_u64(s: &str) -> (r: Option<u64>)
    ensures
        r is Some <==> (unsigned_value(s@) matches Some(v) && v <= u64::MAX),
        r matches Some(v) ==> unsigned_value(s@) == Some(v as int),
{
    s.parse::<u64>().ok()
}

/// `str::parse::<u32>`: the value of the text where it is an unsigned
/// decimal that fits in a `u32`, else `None` (the error dropped).
#[verifier::external_body]
fn parse_u32(s: &str) -> (r: Option<u32>)
    ensures
        r is Some <==> (unsigned_value(s@) matches Some(v) && v <= u32::MAX),
        r matches Some(v) ==> unsigned_value(s@) == Some(v as int),
{
    s.parse::<u32>().ok()
}

/// The text as a `u64`, or 0 where it is none.
pub open spec fn u64_or_zero(s: Seq<char>) -> int {
    match unsigned_value(s) {
        Some(v) => if v <= u64::MAX {
            v
        } else {
            0
        },
        None => 0,
    }
}

/// The text as a `u32`, or 0 where it is none.
pub open spec fn u32_or_zero(s: Seq<char>) -> u32 {
    match unsigned_value(s) {
        Some(v) => if v <= u32::MAX {
            v as u32
        } else {
            0
        },
        None => 0,
    }
}

/// The attribute's value, or `default` where the element has none.
pub open spec fn attribute_or(e: XmlElement, name: Seq<char>, default: Seq<char>) -> Seq<char> {
    match attribute_value(e.attributes@, name) {
        Some(v) => v,
        None => default,
    }
}

/// The hit count of a `line` element of a coverage report.
pub open spec fn line_hits(l: XmlElement) -> int {
    u64_or_zero(attribute_or(l, "hits"@, "0"@))
}

/// The line number of a `line` element of a coverage report.
pub open spec fn line_number(l: XmlElement) -> u32 {
    u32_or_zero(attribute_or(l, "number"@, "0"@))
}

/// The covered line that a child of a `lines` element reports: a `line`
/// element with a positive hit count gives its file and number.
pub open spec fn line_entry(filename: Seq<char>, n: XmlNode) -> Seq<(Seq<char>, u32)> {
    match n {
        XmlNode::Element(l) => if l.name@ == "line"@ && line_hits(l) > 0 {
            seq![(filename, line_number(l))]
        } else {
            seq![]
        },
        _ => seq![],
    }
}

/// The covered lines that the children of a `lines` element report.
pub open spec fn line_entries(filename: Seq<char>, ns: Seq<XmlNode>) -> Seq<(Seq<char>, u32)>
    decreases ns.len(),
{
    if ns.len() == 0 {
        seq![]
    } else {
        line_entries(filename, ns.drop_last()) + line_entry(filename, ns.last())
    }
}

/// The covered lines that a child of a `class` element reports: those of
/// a `lines` element.
pub open spec fn lines_entries(filename: Seq<char>, n: XmlNode) -> Seq<(Seq<char>, u32)> {
    match n {
        XmlNode::Element(ls) => if ls.name@ == "lines"@ {
            line_entries(filename, ls.children@)
        } else {
            seq![]
        },
        _ => seq![],
    }
}

/// The covered lines that the children of a `class` element report.
pub open spec fn class_entries(filename: Seq<char>, ns: Seq<XmlNode>) -> Seq<(Seq<char>, u32)>
    decreases ns.len(),
{
    if ns.len() == 0 {
        seq![]
    } else {
        class_entries(filename, ns.drop_last()) + lines_entries(filename, ns.last())
    }
}

/// The `filename` attribute of a `class` element, empty where it has none.
pub open spec fn class_filename(e: XmlElement) -> Seq<char> {
    attribute_or(e, "filename"@, seq![])
}

/// The covered lines, as (file name, line number), that a node and the
/// nodes below it report, in document order: every `class` element among
/// them contributes the `line` elements with a positive hit count that
/// stand in its `lines` children.
pub open spec fn covered_entries(n: XmlNode) -> Seq<(Seq<char>, u32)>
    decreases n,
{
    match n {
        XmlNode::Root(cs) => covered_entries_list(cs@),
        XmlNode::Element(e) => (if e.name@ == "class"@ {
            class_entries(class_filename(e), e.children@)
        } else {
            seq![]
        }) + covered_entries_list(e.children@),
        _ => seq![],
    }
}

pub open spec fn covered_entries_list(ns: Seq<XmlNode>) -> Seq<(Seq<char>, u32)>
    decreases ns,
{
    if ns.len() == 0 {
        seq![]
    } else {
        covered_entries_list(ns.drop_last()) + covered_entries(ns.last())
    }
}

} // verus!

verus! {

pub open spec fn entry_view(e: (String, u32)) -> (Seq<char>, u32) {
    (e.0@, e.1)
}

/// A list of (file name, line number) entries as plain values.
pub open spec fn entries_view(s: Seq<(String, u32)>) -> Seq<(Seq<char>, u32)> {
    s.map_values(|e: (String, u32)| entry_view(e))
}

/// `acc` followed by the items of `s` that are not yet in it, in order of
/// first occurrence, each once.
pub open spec fn merge<A>(acc: Seq<A>, s: Seq<A>) -> Seq<A>
    decreases s.len(),
{
    if s.len() == 0 {
        acc
    } else {
        let m = merge(acc, s.drop_last());
        if m.contains(s.last()) {
            m
        } else {
            m.push(s.last())
        }
    }
}

/// The items of `s` in order of first occurrence, each once.
pub open spec fn dedup<A>(s: Seq<A>) -> Seq<A> {
    merge(Seq::empty(), s)
}

/// Merging adds exactly the items of `s` to those of `acc`, and adds none
/// twice; where `s` itself holds nothing twice, what is added is the items
/// of `s` that `acc` lacks, in their order in `s`.
pub proof fn lemma_merge<A>(acc: Seq<A>, s: Seq<A>)
    ensures
        acc.len() <= merge(acc, s).len(),
        merge(acc, s).to_set() == acc.to_set().union(s.to_set()),
        acc.no_duplicates() ==> merge(acc, s).no_duplicates(),
        s.no_duplicates() ==> merge(acc, s) == acc + s.filter(|x: A| !acc.contains(x)),
    decreases s.len(),
{
    broadcast use vstd::seq_lib::group_seq_properties;
    reveal(Seq::filter);
    if s.len() == 0 {
        assert(s.to_set() =~= Set::empty());
        assert(acc.to_set().union(s.to_set()) =~= acc.to_set());
        assert(acc + s.filter(|x: A| !acc.contains(x)) =~= acc);
    } else {
        let init = s.drop_last();
        let x = s.last();
        let m = merge(acc, init);
        lemma_merge(acc, init);
        assert(s =~= init.push(x));
        assert(s.to_set() =~= init.to_set().insert(x));
        if m.contains(x) {
            assert(m.to_set().contains(x));
            assert(acc.to_set().union(s.to_set()) =~= acc.to_set().union(init.to_set()));
            if s.no_duplicates() {
                assert(init.no_duplicates());
                assert(!init.contains(x));
                assert(!init.filter(|y: A| !acc.contains(y)).contains(x));
                assert(acc.contains(x));
            }
        } else {
            assert(m.push(x).to_set() =~= m.to_set().insert(x));
            assert(acc.to_set().union(s.to_set()) =~= acc.to_set().union(init.to_set()).insert(x));
            if s.no_duplicates() {
                assert(init.no_duplicates());
                assert(!acc.contains(x));
                assert(acc + s.filter(|y: A| !acc.contains(y)) =~= (acc + init.filter(
                    |y: A| !acc.contains(y),
                )).push(x));
            }
        }
    }
}

/// `dedup` keeps each item once and drops none.
pub proof fn lemma_dedup<A>(s: Seq<A>)
    ensures
        dedup(s).no_duplicates(),
        dedup(s).to_set() == s.to_set(),
{
    lemma_merge(Seq::<A>::empty(), s);
    assert(Seq::<A>::empty().to_set() =~= Set::<A>::empty());
    assert(Set::<A>::empty().union(s.to_set()) =~= s.to_set());
}

fn push_entry(out: &mut Vec<(String, u32)>, filename: &String, number: u32)
    ensures
        entries_view(final(out)@) == entries_view(old(out)@).push((filename@, number)),
{
    out.push((filename.clone(), number));
    assert(entries_view(out@) =~= entries_view(old(out)@).push((filename@, number)));
}

/// The text of the attribute, or `default` where the element has none.
fn attribute_or_exec<'a>(e: &'a XmlElement, name: &str, default: &'a str) -> (r: &'a str)
    ensures
        r@ == attribute_or(*e, name@, default@),
{
    match e.attribute(name) {
        Some(v) => v.as_str(),
        None => default,
    }
}

fn collect_line_entries(filename: &String, ns: &Vec<XmlNode>, out: &mut Vec<(String, u32)>)
    ensures
        entries_view(final(out)@) == entries_view(old(out)@) + line_entries(filename@, ns@),
{
    let ghost start = entries_view(out@);
    let mut i: usize = 0;
    assert(ns@.take(0) =~= Seq::<XmlNode>::empty());
    while i < ns.len()
        invariant
            i <= ns.len(),
            entries_view(out@) == start + line_entries(filename@, ns@.take(i as int)),
        decreases ns.len() - i,
    {
        let ghost before = entries_view(out@);
        match &ns[i] {
            XmlNode::Element(l) => {
                if text_is(&l.name, "line") {
                    let hits: u64 = match parse_u64(attribute_or_exec(l, "hits", "0")) {
                        Some(h) => h,
                        None => 0,
                    };
                    if hits > 0 {
                        let number: u32 = match parse_u32(attribute_or_exec(l, "number", "0")) {
                            Some(k) => k,
                            None => 0,
                        };
                        push_entry(out, filename, number);
                    }
                }
            },
            _ => {},
        }
        proof {
            let t = ns@.take(i + 1);
            assert(t.drop_last() =~= ns@.take(i as int));
            assert(t.last() == ns@[i as int]);
            assert(entries_view(out@) =~= before + line_entry(filename@, ns@[i as int]));
        }
        i = i + 1;
    }
    assert(ns@.take(ns.len() as int) =~= ns@);
}

fn collect_class_entries(filename: &String, ns: &Vec<XmlNode>, out: &mut Vec<(String, u32)>)
    ensures
        entries_view(final(out)@) == entries_view(old(out)@) + class_entries(filename@, ns@),
{
    let ghost start = entries_view(out@);
    let mut i: usize = 0;
    assert(ns@.take(0) =~= Seq::<XmlNode>::empty());
    while i < ns.len()
        invariant
            i <= ns.len(),
            entries_view(out@) == start + class_entries(filename@, ns@.take(i as int)),
        decreases ns.len() - i,
    {
        let ghost before = entries_view(out@);
        match &ns[i] {
            XmlNode::Element(ls) => {
                if text_is(&ls.name, "lines") {
                    collect_line_entries(filename, &ls.children, out);
                }
            },
            _ => {},
        }
        proof {
            let t = ns@.take(i + 1);
            assert(t.drop_last() =~= ns@.take(i as int));
            assert(t.last() == ns@[i as int]);
            assert(entries_view(out@) =~= before + lines_entries(filename@, ns@[i as int]));
        }
        i = i + 1;
    }
    assert(ns@.take(ns.len() as int) =~= ns@);
}

fn collect_covered(n: &XmlNode, out: &mut Vec<(String, u32)>)
    ensures
        entries_view(final(out)@) == entries_view(old(out)@) + covered_entries(*n),
    decreases n,
{
    let ghost start = entries_view(out@);
    match n {
        XmlNode::Root(cs) => {
            collect_covered_list(cs, out);
        },
        XmlNode::Element(e) => {
            if text_is(&e.name, "class") {
                let filename: String = match e.attribute("filename") {
                    Some(v) => v.clone(),
                    None => String::new(),
                };
                collect_class_entries(&filename, &e.children, out);
            }
            let ghost middle = entries_view(out@);
            collect_covered_list(&e.children, out);
        },
        _ => {},
    }
    assert(entries_view(out@) =~= start + covered_entries(*n));
}

fn collect_covered_list(ns: &Vec<XmlNode>, out: &mut Vec<(String, u32)>)
    ensures
        entries_view(final(out)@) == entries_view(old(out)@) + covered_entries_list(ns@),
    decreases ns,
{
    let ghost start = entries_view(out@);
    let mut i: usize = 0;
    assert(ns@.take(0) =~= Seq::<XmlNode>::empty());
    while i < ns.len()
        invariant
            i <= ns.len(),
            entries_view(out@) == start + covered_entries_list(ns@.take(i as int)),
        decreases ns.len() - i,
    {
        let ghost before = entries_view(out@);
        collect_covered(&ns[i], out);
        proof {
            let t = ns@.take(i + 1);
            assert(t.drop_last() =~= ns@.take(i as int));
            assert(t.last() == ns@[i as int]);
            assert(entries_view(out@) =~= before + covered_entries(ns@[i as int]));
        }
        i = i + 1;
    }
    assert(ns@.take(ns.len() as int) =~= ns@);
}

/// Whether `v` holds the entry `(filename, number)`.
fn contains_entry(v: &Vec<(String, u32)>, filename: &String, number: u32) -> (r: bool)
    ensures
        r == entries_view(v@).contains((filename@, number)),
{
    let mut j: usize = 0;
    while j < v.len()
        invariant
            j <= v.len(),
            forall|k: int| 0 <= k < j ==> #[trigger] entries_view(v@)[k] != (filename@, number),
        decreases v.len() - j,
    {
        if v[j].1 == number && v[j].0 == *filename {
            assert(entries_view(v@)[j as int] == (filename@, number));
            return true;
        }
        j = j + 1;
    }
    false
}

/// Appends to `acc` the entries of `v` that it does not hold yet (see
/// [`merge`]).
fn merge_entries(acc: &mut Vec<(String, u32)>, v: &Vec<(String, u32)>)
    ensures
        entries_view(final(acc)@) == merge(entries_view(old(acc)@), entries_view(v@)),
{
    let ghost start = entries_view(acc@);
    let mut i: usize = 0;
    assert(entries_view(v@).take(0) =~= Seq::<(Seq<char>, u32)>::empty());
    while i < v.len()
        invariant
            i <= v.len(),
            entries_view(acc@) == merge(start, entries_view(v@).take(i as int)),
        decreases v.len() - i,
    {
        if !contains_entry(acc, &v[i].0, v[i].1) {
            push_entry(acc, &v[i].0, v[i].1);
        }
        proof {
            let t = entries_view(v@).take(i + 1);
            assert(t.drop_last() =~= entries_view(v@).take(i as int));
            assert(t.last() == entries_view(v@)[i as int]);
        }
        i = i + 1;
    }
    assert(entries_view(v@).take(v.len() as int) =~= entries_view(v@));
}

/// The lines that a coverage report's tree shows covered: every (file
/// name, line number) that [`covered_entries`] lists, each once, in order
/// of first occurrence.
pub fn covered_lines_in(doc: &XmlNode) -> (r: Vec<(String, u32)>)
    ensures
        entries_view(r@) == dedup(covered_entries(*doc)),
        entries_view(r@).no_duplicates(),
        entries_view(r@).to_set() == covered_entries(*doc).to_set(),
{
    let mut all: Vec<(String, u32)> = Vec::new();
    assert(entries_view(all@) =~= Seq::<(Seq<char>, u32)>::empty());
    collect_covered(doc, &mut all);
    assert(entries_view(all@) =~= covered_entries(*doc));
    let mut r: Vec<(String, u32)> = Vec::new();
    assert(entries_view(r@) =~= Seq::<(Seq<char>, u32)>::empty());
    merge_entries(&mut r, &all);
    proof {
        lemma_dedup(covered_entries(*doc));
    }
    r
}

/// The lines that a Cobertura coverage report shows covered (see
/// [`covered_lines_in`]); `None` where the report is not well-formed XML.
pub fn covered_lines(xml: &str) -> (r: Option<Vec<(String, u32)>>)
    ensures
        match parsed_xml(xml@) {
            Some(doc) => r matches Some(v) && entries_view(v@) == dedup(covered_entries(doc)),
            None => r is None,
        },
{
    match parse_xml(xml) {
        Some(doc) => Some(covered_lines_in(&doc)),
        None => None,
    }
}

} // verus!

verus! {

/// How many `line` elements a node and the nodes below it hold.
pub open spec fn line_count(n: XmlNode) -> nat
    decreases n,
{
    match n {
        XmlNode::Root(cs) => line_count_list(cs@),
        XmlNode::Element(e) => (if e.name@ == "line"@ {
            1nat
        } else {
            0nat
        }) + line_count_list(e.children@),
        _ => 0,
    }
}

pub open spec fn line_count_list(ns: Seq<XmlNode>) -> nat
    decreases ns,
{
    if ns.len() == 0 {
        0
    } else {
        line_count_list(ns.drop_last()) + line_count(ns.last())
    }
}

/// `n` as a `usize`, or `usize::MAX` where it does not fit.
pub open spec fn saturated(n: nat) -> usize {
    if n > usize::MAX {
        usize::MAX
    } else {
        n as usize
    }
}

/// How many `line` elements the tree holds (saturating at `usize::MAX`).
pub fn count_lines(n: &XmlNode) -> (r: usize)
    ensures
        r == saturated(line_count(*n)),
    decreases n,
{
    match n {
        XmlNode::Root(cs) => count_lines_list(cs),
        XmlNode::Element(e) => {
            let own: usize = if text_is(&e.name, "line") {
                1
            } else {
                0
            };
            own.saturating_add(count_lines_list(&e.children))
        },
        _ => 0,
    }
}

fn count_lines_list(ns: &Vec<XmlNode>) -> (r: usize)
    ensures
        r == saturated(line_count_list(ns@)),
    decreases ns,
{
    let mut total: usize = 0;
    let mut i: usize = 0;
    assert(ns@.take(0) =~= Seq::<XmlNode>::empty());
    while i < ns.len()
        invariant
            i <= ns.len(),
            total == saturated(line_count_list(ns@.take(i as int))),
        decreases ns.len() - i,
    {
        let c = count_lines(&ns[i]);
        proof {
            let t = ns@.take(i + 1);
            assert(t.drop_last() =~= ns@.take(i as int));
            assert(t.last() == ns@[i as int]);
        }
        total = total.saturating_add(c);
        i = i + 1;
    }
    assert(ns@.take(ns.len() as int) =~= ns@);
    total
}

/// The running totals of a coverage measurement over many runs: the
/// covered lines seen so far, each once, and the number of instrumented
/// lines, taken from the first report that has any.
pub struct CoverageTally {
    pub covered: Vec<(String, u32)>,
    pub total_lines: usize,
}

impl CoverageTally {
    /// The covered lines hold no entry twice.
    pub open spec fn wf(self) -> bool {
        entries_view(self.covered@).no_duplicates()
    }

    /// No lines covered and no instrumented lines counted yet.
    pub fn new() -> (t: Self)
        ensures
            t.covered@.len() == 0,
            t.total_lines == 0,
            t.wf(),
    {
        let t = CoverageTally { covered: Vec::new(), total_lines: 0 };
        assert(entries_view(t.covered@) =~= Seq::<(Seq<char>, u32)>::empty());
        t
    }

    /// Takes the coverage report of one run. Until some report has counted
    /// a positive number of instrumented lines, the number of `line`
    /// elements of this one is taken; the run's covered lines join those
    /// seen so far. Returns how many lines the run covered and how many of
    /// them no earlier run had; `None`, with nothing changed, where the
    /// report is not well-formed XML.
    pub fn record_run(&mut self, report: &str) -> (r: Option<(usize, usize)>)
        ensures
            match parsed_xml(report@) {
                None => r is None && *final(self) == *old(self),
                Some(doc) => {
                    let run = dedup(covered_entries(doc));
                    let merged = merge(entries_view(old(self).covered@), run);
                    &&& entries_view(final(self).covered@) == merged
                    &&& final(self).total_lines == if old(self).total_lines == 0 {
                        saturated(line_count(doc))
                    } else {
                        old(self).total_lines
                    }
                    &&& r == Some((run.len() as usize, (merged.len() - old(self).covered@.len()) as usize))
                },
            },
            old(self).wf() ==> final(self).wf(),
    {
        match parse_xml(report) {
            None => None,
            Some(doc) => {
                if self.total_lines == 0 {
                    self.total_lines = count_lines(&doc);
                }
                let run = covered_lines_in(&doc);
                let before = self.covered.len();
                merge_entries(&mut self.covered, &run);
                proof {
                    lemma_merge(entries_view(old(self).covered@), entries_view(run@));
                }
                let after = self.covered.len();
                Some((run.len(), after - before))
            },
        }
    }

    /// The number of distinct covered lines and the number of instrumented
    /// lines.
    pub fn totals(&self) -> (r: (usize, usize))
        ensures
            r == (self.covered@.len() as usize, self.total_lines),
    {
        (self.covered.len(), self.total_lines)
    }
}

/// A coverage measurement over the seeds `1..=amount`, run in that
/// order: how many seeds have been recorded, and the tally of their
/// reports.
pub struct CoverageRun {
    pub amount: usize,
    pub done: usize,
    pub tally: CoverageTally,
}

impl CoverageRun {
    /// The seeds recorded are among those asked for, and the tally holds no
    /// line twice.
    pub open spec fn wf(self) -> bool {
        &&& self.done <= self.amount
        &&& self.tally.wf()
    }

    /// A measurement of `amount` seeds with none recorded yet.
    pub fn new(amount: usize) -> (r: Self)
        ensures
            r.amount == amount,
            r.done == 0,
            r.tally.covered@.len() == 0,
            r.tally.total_lines == 0,
            r.wf(),
    {
        CoverageRun { amount, done: 0, tally: CoverageTally::new() }
    }

    /// The seed to run next: one more than the seeds recorded, while some
    /// are left; `None` once all `amount` have been recorded.
    pub fn next_seed(&self) -> (r: Option<usize>)
        requires
            self.wf(),
        ensures
            r == (if self.done < self.amount {
                Some((self.done + 1) as usize)
            } else {
                None
            }),
    {
        if self.done < self.amount {
            Some(self.done + 1)
        } else {
            None
        }
    }

    /// Records the coverage report of the next seed's run (see
    /// [`CoverageTally::record_run`]); the seed counts as recorded. `None`,
    /// with nothing changed, where the report is not well-formed XML.
    pub fn record(&mut self, report: &str) -> (r: Option<(usize, usize)>)
        requires
            old(self).wf(),
            old(self).done < old(self).amount,
        ensures
            final(self).wf(),
            final(self).amount == old(self).amount,
            r is Some ==> final(self).done == old(self).done + 1,
            r is None ==> *final(self) == *old(self),
            parsed_xml(report@) is None <==> r is None,
            parsed_xml(report@) matches Some(doc) ==> {
                let run = dedup(covered_entries(doc));
                let merged = merge(entries_view(old(self).tally.covered@), run);
                &&& entries_view(final(self).tally.covered@) == merged
                &&& final(self).tally.total_lines == if old(self).tally.total_lines == 0 {
                    saturated(line_count(doc))
                } else {
                    old(self).tally.total_lines
                }
                &&& r == Some(
                    (run.len() as usize, (merged.len() - old(self).tally.covered@.len()) as usize),
                )
            },
    {
        let r = self.tally.record_run(report);
        if r.is_some() {
            self.done = self.done + 1;
        }
        r
    }
}

} // verus!
