//! Laws of the pipeline, stated over the grammar's items and proved once
//! and for all: what the Declaration Text owes the source text.

use crate::grammar::{
    decl_item, ident_end, is_ident_char, is_ident_start_char, is_ws_char,
    item_expected, kw_at, kw_enum, kw_fn, kw_lookup, kw_struct, lemma_ident_end,
    lemma_ident_end_exact, lemma_kw_lookup_some, lemma_parse_items_decl, lemma_parse_items_eoi,
    lemma_parse_items_no_item, lemma_parse_items_no_name, lemma_skip_ws, lemma_skip_ws_exact,
    matches_at, parse_items, skip_ws, spec_parse, RuleId, SpecError, SpecItem,
};
use crate::lang::{node_matches_item, tree_matches, ParseNode};
use crate::transpiler::{
    banner_text, child_line, child_ok, lines_concat, needs_name, transpiled_text, tree_ok,
};
use vstd::prelude::*;

verus! {

/// The output line owed to the item `it` of source `s`.
pub open spec fn spec_item_line(s: Seq<char>, it: SpecItem) -> Seq<char> {
    if it.rule == RuleId::Function {
        "void "@ + s.subrange(it.name_start, it.name_end) + "();\n"@
    } else if it.rule == RuleId::StructDef {
        "struct "@ + s.subrange(it.name_start, it.name_end) + " {};\n"@
    } else if it.rule == RuleId::EndOfInput {
        Seq::empty()
    } else {
        "// Unhandled: "@ + s.subrange(it.start, it.end) + "\n"@
    }
}

/// The output lines owed to the items of `s`, concatenated in order.
pub open spec fn spec_lines(s: Seq<char>, items: Seq<SpecItem>) -> Seq<char>
    decreases items.len(),
{
    if items.len() == 0 {
        Seq::empty()
    } else {
        spec_item_line(s, items[0]) + spec_lines(s, items.drop_first())
    }
}

/// The Declaration Text owed to source `s`: the banner, then one line per
/// top-level item, when the grammar accepts `s`; nothing otherwise.
pub open spec fn spec_output(s: Seq<char>) -> Option<Seq<char>> {
    match spec_parse(s) {
        Ok(items) => Some(banner_text() + spec_lines(s, items)),
        Err(_) => None,
    }
}

proof fn lemma_child_line_matches(n: ParseNode, s: Seq<char>, it: SpecItem)
    requires
        node_matches_item(n, s, it),
    ensures
        child_line(n) == spec_item_line(s, it),
{
}

proof fn lemma_lines_pointwise(cs: Seq<ParseNode>, s: Seq<char>, items: Seq<SpecItem>)
    requires
        cs.len() == items.len(),
        forall|k: int| 0 <= k < cs.len() ==> node_matches_item(#[trigger] cs[k], s, items[k]),
    ensures
        lines_concat(cs) == spec_lines(s, items),
    decreases cs.len(),
{
    if cs.len() > 0 {
        lemma_child_line_matches(cs[0], s, items[0]);
        let cs2 = cs.drop_first();
        let it2 = items.drop_first();
        assert forall|k: int| 0 <= k < cs2.len() implies node_matches_item(
            #[trigger] cs2[k],
            s,
            it2[k],
        ) by {
            assert(cs2[k] == cs[k + 1]);
            assert(it2[k] == items[k + 1]);
            assert(node_matches_item(cs[k + 1], s, items[k + 1]));
        }
        lemma_lines_pointwise(cs2, s, it2);
    }
}

/// A parse tree carries every identifier child its declarations need, and
/// its transpilation is determined by the source text alone: the tree that
/// the parser returns for `s` transpiles to exactly the text owed to `s`.
pub proof fn lemma_transpile_of_parse(t: ParseNode, s: Seq<char>)
    requires
        tree_matches(t, s),
    ensures
        tree_ok(t),
        spec_output(s) == Some(transpiled_text(t)),
{
    let items = spec_parse(s)->Ok_0;
    assert forall|k: int| 0 <= k < t.children@.len() implies child_ok(
        #[trigger] t.children@[k],
    ) by {
        assert(node_matches_item(t.children@[k], s, items[k]));
    }
    lemma_lines_pointwise(t.children@, s, items);
}

/// Determinism: the text owed to a source depends on the source text
/// alone, so transpiling the same source twice yields byte-identical
/// output, and so does transpiling two equal sources.
pub proof fn lemma_deterministic(s1: Seq<char>, s2: Seq<char>)
    requires
        s1 == s2,
    ensures
        spec_output(s1) == spec_output(s2),
{
}

/// Order preservation: the lines owed to a left part of the items stand,
/// unchanged, before the lines owed to the right part; output order is
/// source order.
pub proof fn lemma_order_preserved(s: Seq<char>, a: Seq<SpecItem>, b: Seq<SpecItem>)
    ensures
        spec_lines(s, a + b) == spec_lines(s, a) + spec_lines(s, b),
    decreases a.len(),
{
    reveal_with_fuel(spec_lines, 2);
    if a.len() == 0 {
        assert(a + b =~= b);
        assert(Seq::<char>::empty() + spec_lines(s, b) =~= spec_lines(s, b));
    } else {
        let rest = a.drop_first();
        assert((a + b)[0] == a[0]);
        assert((a + b).drop_first() =~= rest + b);
        lemma_order_preserved(s, rest, b);
        assert(spec_lines(s, a + b) == spec_item_line(s, a[0]) + (spec_lines(s, rest)
            + spec_lines(s, b)));
        assert(spec_item_line(s, a[0]) + (spec_lines(s, rest) + spec_lines(s, b)) =~= (
        spec_item_line(s, a[0]) + spec_lines(s, rest)) + spec_lines(s, b));
    }
}

/// `h` holds `n` as a contiguous run of characters.
pub open spec fn contains_seq(h: Seq<char>, n: Seq<char>) -> bool {
    exists|i: int| 0 <= i && i + n.len() <= h.len() && #[trigger] h.subrange(i, i + n.len()) == n
}

/// `n` stands in `h` at position `i`.
proof fn lemma_contains_at(h: Seq<char>, n: Seq<char>, i: int)
    requires
        0 <= i,
        i + n.len() <= h.len(),
        h.subrange(i, i + n.len()) == n,
    ensures
        contains_seq(h, n),
{
}

proof fn lemma_contains_concat_left(a: Seq<char>, b: Seq<char>, x: Seq<char>)
    requires
        contains_seq(a, x),
    ensures
        contains_seq(a + b, x),
{
    let i = choose|i: int| 0 <= i && i + x.len() <= a.len() && #[trigger] a.subrange(i, i + x.len()) == x;
    assert((a + b).subrange(i, i + x.len()) =~= x);
    lemma_contains_at(a + b, x, i);
}

proof fn lemma_contains_concat_right(a: Seq<char>, b: Seq<char>, x: Seq<char>)
    requires
        contains_seq(b, x),
    ensures
        contains_seq(a + b, x),
{
    let i = choose|i: int| 0 <= i && i + x.len() <= b.len() && #[trigger] b.subrange(i, i + x.len()) == x;
    assert((a + b).subrange(a.len() + i, a.len() + i + x.len()) =~= x);
    lemma_contains_at(a + b, x, a.len() + i);
}

proof fn lemma_contains_trans(a: Seq<char>, b: Seq<char>, c: Seq<char>)
    requires
        contains_seq(a, b),
        contains_seq(b, c),
    ensures
        contains_seq(a, c),
{
    let i = choose|i: int| 0 <= i && i + b.len() <= a.len() && #[trigger] a.subrange(i, i + b.len()) == b;
    let j = choose|j: int| 0 <= j && j + c.len() <= b.len() && #[trigger] b.subrange(j, j + c.len()) == c;
    assert(a.subrange(i + j, i + j + c.len()) =~= c);
    lemma_contains_at(a, c, i + j);
}

proof fn lemma_lines_contain_item(s: Seq<char>, items: Seq<SpecItem>, k: int)
    requires
        0 <= k < items.len(),
    ensures
        contains_seq(spec_lines(s, items), spec_item_line(s, items[k])),
    decreases k,
{
    let line = spec_item_line(s, items[0]);
    let rest = spec_lines(s, items.drop_first());
    if k == 0 {
        assert(spec_lines(s, items) == line + rest);
        assert((line + rest).subrange(0, line.len() as int) =~= line);
        lemma_contains_at(spec_lines(s, items), line, 0);
    } else {
        assert(items.drop_first()[k - 1] == items[k]);
        lemma_lines_contain_item(s, items.drop_first(), k - 1);
        lemma_contains_concat_right(line, rest, spec_item_line(s, items[k]));
    }
}

/// Name fidelity: a function or structure declared under a name puts its
/// declaration line — and in it the declared identifier, verbatim as it
/// stands in the source — into the output text.
pub proof fn lemma_name_fidelity(s: Seq<char>, k: int)
    requires
        spec_parse(s) is Ok,
        0 <= k < spec_parse(s)->Ok_0.len(),
        needs_name(spec_parse(s)->Ok_0[k].rule),
    ensures
        ({
            let it = spec_parse(s)->Ok_0[k];
            let name = s.subrange(it.name_start, it.name_end);
            let out = banner_text() + spec_lines(s, spec_parse(s)->Ok_0);
            &&& spec_output(s) == Some(out)
            &&& contains_seq(out, spec_item_line(s, it))
            &&& contains_seq(out, name)
        }),
{
    let items = spec_parse(s)->Ok_0;
    let it = items[k];
    let name = s.subrange(it.name_start, it.name_end);
    let line = spec_item_line(s, it);
    let out = banner_text() + spec_lines(s, items);
    lemma_lines_contain_item(s, items, k);
    lemma_contains_concat_right(banner_text(), spec_lines(s, items), line);
    assert(name.subrange(0, name.len() as int) =~= name);
    lemma_contains_at(name, name, 0);
    if it.rule == RuleId::Function {
        lemma_contains_concat_right("void "@, name, name);
        lemma_contains_concat_left("void "@ + name, "();\n"@, name);
        assert(("void "@ + name) + "();\n"@ =~= line);
    } else {
        lemma_contains_concat_right("struct "@, name, name);
        lemma_contains_concat_left("struct "@ + name, " {};\n"@, name);
        assert(("struct "@ + name) + " {};\n"@ =~= line);
    }
    lemma_contains_trans(out, line, name);
}

/// What the grammar guarantees of every item it yields: spans lie within
/// the source in order, a declaration's name is a nonempty run of
/// identifier characters closing its span, and the end-of-input marker is
/// an empty span at the very end.
pub open spec fn wf_item(s: Seq<char>, it: SpecItem) -> bool {
    &&& 0 <= it.start <= it.name_start <= it.name_end <= it.end <= s.len()
    &&& (it.rule == RuleId::EndOfInput ==> it.start == s.len() && it.end == s.len())
    &&& (it.rule != RuleId::EndOfInput ==> {
        &&& it.rule == RuleId::Function || it.rule == RuleId::StructDef || it.rule
            == RuleId::EnumDef
        &&& it.name_start < it.name_end
        &&& it.name_end == it.end
        &&& forall|j: int| it.name_start <= j < it.name_end ==> is_ident_char(#[trigger] s[j])
    })
}

/// Every accepted parse yields well-formed items, at least the end-of-input
/// marker, which stands exactly once and last.
pub proof fn lemma_parse_items_wf(s: Seq<char>, i: int)
    requires
        0 <= i <= s.len(),
        parse_items(s, i) is Ok,
    ensures
        ({
            let items = parse_items(s, i)->Ok_0;
            &&& items.len() >= 1
            &&& forall|k: int| 0 <= k < items.len() ==> wf_item(s, #[trigger] items[k])
            &&& items[items.len() - 1].rule == RuleId::EndOfInput
            &&& forall|k: int|
                0 <= k < items.len() - 1 ==> (#[trigger] items[k]).rule != RuleId::EndOfInput
        }),
    decreases s.len() - i,
{
    let p = skip_ws(s, i);
    lemma_skip_ws(s, i);
    if p == s.len() {
        lemma_parse_items_eoi(s, i);
    } else {
        match kw_lookup(s, p) {
            Some((rule, klen)) => {
                lemma_kw_lookup_some(s, p, rule, klen);
                let ns = skip_ws(s, p + klen);
                lemma_skip_ws(s, p + klen);
                if ns < s.len() && is_ident_start_char(s[ns]) {
                    lemma_ident_end(s, ns);
                    let ne = ident_end(s, ns);
                    assert(ne > ns);
                    lemma_parse_items_decl(s, i, rule, klen);
                    lemma_parse_items_wf(s, ne);
                    let it = decl_item(rule, p, ns, ne);
                    let rest = parse_items(s, ne)->Ok_0;
                    let items = parse_items(s, i)->Ok_0;
                    assert(items == seq![it] + rest);
                    assert(wf_item(s, it));
                    assert forall|k: int| 0 <= k < items.len() implies wf_item(
                        s,
                        #[trigger] items[k],
                    ) by {
                        if k > 0 {
                            assert(items[k] == rest[k - 1]);
                        }
                    }
                    assert(items[items.len() - 1] == rest[rest.len() - 1]);
                    assert forall|k: int| 0 <= k < items.len() - 1 implies (
                    #[trigger] items[k]).rule != RuleId::EndOfInput by {
                        if k > 0 {
                            assert(items[k] == rest[k - 1]);
                        }
                    }
                } else {
                    lemma_parse_items_no_name(s, i, rule, klen);
                    assert(false);
                }
            },
            None => {
                lemma_parse_items_no_item(s, i);
                assert(false);
            },
        }
    }
}

/// Top-level items stand in source order: the first span begins at or
/// after the scan position, and each span ends before the next begins —
/// the parse tree's children are ordered left to right, without overlap.
#[verifier::rlimit(100)]
pub proof fn lemma_parse_items_ordered(s: Seq<char>, i: int)
    requires
        0 <= i <= s.len(),
        parse_items(s, i) is Ok,
    ensures
        ({
            let items = parse_items(s, i)->Ok_0;
            &&& items.len() >= 1
            &&& i <= items[0].start
            &&& forall|k: int|
                0 <= k < items.len() - 1 ==> (#[trigger] items[k]).end <= items[k + 1].start
        }),
    decreases s.len() - i,
{
    let p = skip_ws(s, i);
    lemma_skip_ws(s, i);
    if p == s.len() {
        lemma_parse_items_eoi(s, i);
    } else {
        match kw_lookup(s, p) {
            Some((rule, klen)) => {
                lemma_kw_lookup_some(s, p, rule, klen);
                let ns = skip_ws(s, p + klen);
                lemma_skip_ws(s, p + klen);
                if ns < s.len() && is_ident_start_char(s[ns]) {
                    lemma_ident_end(s, ns);
                    let ne = ident_end(s, ns);
                    lemma_parse_items_decl(s, i, rule, klen);
                    lemma_parse_items_ordered(s, ne);
                    let it = decl_item(rule, p, ns, ne);
                    let rest = parse_items(s, ne)->Ok_0;
                    let items = parse_items(s, i)->Ok_0;
                    assert(items == seq![it] + rest);
                    assert(items[0] == it);
                    assert forall|k: int| 0 <= k < items.len() - 1 implies (
                    #[trigger] items[k]).end <= items[k + 1].start by {
                        if k == 0 {
                            assert(items[1] == rest[0]);
                        } else {
                            assert(items[k] == rest[k - 1]);
                            assert(items[k + 1] == rest[k]);
                        }
                    }
                } else {
                    lemma_parse_items_no_name(s, i, rule, klen);
                    assert(false);
                }
            },
            None => {
                lemma_parse_items_no_item(s, i);
                assert(false);
            },
        }
    }
}

/// The number of occurrences of `c` in `s`.
pub open spec fn count_char(s: Seq<char>, c: char) -> int
    decreases s.len(),
{
    if s.len() == 0 {
        0
    } else {
        (if s[0] == c {
            1int
        } else {
            0int
        }) + count_char(s.drop_first(), c)
    }
}

pub proof fn lemma_count_char_concat(a: Seq<char>, b: Seq<char>, c: char)
    ensures
        count_char(a + b, c) == count_char(a, c) + count_char(b, c),
    decreases a.len(),
{
    if a.len() == 0 {
        assert(a + b =~= b);
    } else {
        assert((a + b)[0] == a[0]);
        assert((a + b).drop_first() =~= a.drop_first() + b);
        lemma_count_char_concat(a.drop_first(), b, c);
    }
}

proof fn lemma_count_char_none(s: Seq<char>, c: char)
    requires
        forall|j: int| 0 <= j < s.len() ==> s[j] != c,
    ensures
        count_char(s, c) == 0,
    decreases s.len(),
{
    if s.len() > 0 {
        assert(s[0] != c);
        assert forall|j: int| 0 <= j < s.drop_first().len() implies s.drop_first()[j] != c by {
            assert(s.drop_first()[j] == s[j + 1]);
        }
        lemma_count_char_none(s.drop_first(), c);
    }
}

proof fn lemma_count_newline_lits()
    ensures
        count_char("void "@, '\n') == 0,
        count_char("();\n"@, '\n') == 1,
        count_char("struct "@, '\n') == 0,
        count_char(" {};\n"@, '\n') == 1,
        count_char("// Unhandled: "@, '\n') == 0,
        count_char("\n"@, '\n') == 1,
{
    reveal_strlit("void ");
    reveal_strlit("();\n");
    reveal_strlit("struct ");
    reveal_strlit(" {};\n");
    reveal_strlit("// Unhandled: ");
    reveal_strlit("\n");
    reveal_with_fuel(count_char, 16);
}

/// The line owed to a non-marker item holds exactly the one line break
/// that ends it — for an unmapped construct, provided its echoed text
/// spans no line break itself.
proof fn lemma_item_line_newlines(s: Seq<char>, it: SpecItem)
    requires
        wf_item(s, it),
        !(it.rule == RuleId::Function || it.rule == RuleId::StructDef || it.rule
            == RuleId::EndOfInput) ==> count_char(s.subrange(it.start, it.end), '\n') == 0,
    ensures
        count_char(spec_item_line(s, it), '\n') == if it.rule == RuleId::EndOfInput {
            0int
        } else {
            1int
        },
{
    lemma_count_newline_lits();
    let name = s.subrange(it.name_start, it.name_end);
    if it.rule == RuleId::Function || it.rule == RuleId::StructDef {
        assert forall|j: int| 0 <= j < name.len() implies name[j] != '\n' by {
            assert(name[j] == s[it.name_start + j]);
            assert(is_ident_char(s[it.name_start + j]));
            assert(!is_ident_char('\n'));
        }
        lemma_count_char_none(name, '\n');
        if it.rule == RuleId::Function {
            lemma_count_char_concat("void "@, name, '\n');
            lemma_count_char_concat("void "@ + name, "();\n"@, '\n');
        } else {
            lemma_count_char_concat("struct "@, name, '\n');
            lemma_count_char_concat("struct "@ + name, " {};\n"@, '\n');
        }
    } else if it.rule == RuleId::EndOfInput {
        assert(count_char(Seq::<char>::empty(), '\n') == 0);
    } else {
        let text = s.subrange(it.start, it.end);
        lemma_count_char_concat("// Unhandled: "@, text, '\n');
        lemma_count_char_concat("// Unhandled: "@ + text, "\n"@, '\n');
    }
}

/// The number of items besides the end-of-input marker.
pub open spec fn construct_count(items: Seq<SpecItem>) -> int
    decreases items.len(),
{
    if items.len() == 0 {
        0
    } else {
        (if items[0].rule == RuleId::EndOfInput {
            0int
        } else {
            1int
        }) + construct_count(items.drop_first())
    }
}

proof fn lemma_lines_newline_count(s: Seq<char>, items: Seq<SpecItem>)
    requires
        forall|k: int| 0 <= k < items.len() ==> wf_item(s, #[trigger] items[k]),
        forall|k: int|
            0 <= k < items.len() && !((#[trigger] items[k]).rule == RuleId::Function
                || items[k].rule == RuleId::StructDef || items[k].rule == RuleId::EndOfInput)
                ==> count_char(s.subrange(items[k].start, items[k].end), '\n') == 0,
    ensures
        count_char(spec_lines(s, items), '\n') == construct_count(items),
    decreases items.len(),
{
    if items.len() > 0 {
        assert(wf_item(s, items[0]));
        lemma_item_line_newlines(s, items[0]);
        lemma_count_char_concat(
            spec_item_line(s, items[0]),
            spec_lines(s, items.drop_first()),
            '\n',
        );
        assert forall|k: int| 0 <= k < items.drop_first().len() implies wf_item(
            s,
            #[trigger] items.drop_first()[k],
        ) by {
            assert(items.drop_first()[k] == items[k + 1]);
        }
        assert forall|k: int|
            0 <= k < items.drop_first().len() && !((#[trigger] items.drop_first()[k]).rule
                == RuleId::Function || items.drop_first()[k].rule == RuleId::StructDef
                || items.drop_first()[k].rule == RuleId::EndOfInput) implies count_char(
            s.subrange(items.drop_first()[k].start, items.drop_first()[k].end),
            '\n',
        ) == 0 by {
            assert(items.drop_first()[k] == items[k + 1]);
        }
        lemma_lines_newline_count(s, items.drop_first());
    }
}

proof fn lemma_construct_count_all_but_last(items: Seq<SpecItem>)
    requires
        items.len() >= 1,
        items[items.len() - 1].rule == RuleId::EndOfInput,
        forall|k: int|
            0 <= k < items.len() - 1 ==> (#[trigger] items[k]).rule != RuleId::EndOfInput,
    ensures
        construct_count(items) == items.len() - 1,
    decreases items.len(),
{
    reveal_with_fuel(construct_count, 2);
    if items.len() == 1 {
        assert(items.drop_first() =~= Seq::<SpecItem>::empty());
        assert(construct_count(items.drop_first()) == 0);
    } else {
        let rest = items.drop_first();
        assert(rest[rest.len() - 1] == items[items.len() - 1]);
        assert forall|k: int| 0 <= k < rest.len() - 1 implies (#[trigger] rest[k]).rule
            != RuleId::EndOfInput by {
            assert(rest[k] == items[k + 1]);
        }
        lemma_construct_count_all_but_last(rest);
    }
}

/// Total coverage: for a source the grammar accepts, the non-banner output
/// holds exactly one line — one terminating line break — per top-level
/// construct besides the end-of-input marker: no construct is ever dropped
/// silently. Unmapped constructs whose own matched text spans a line break
/// are left out here: their echoing comment carries the break into the
/// output, on purpose.
pub proof fn lemma_total_coverage(s: Seq<char>, items: Seq<SpecItem>)
    requires
        spec_parse(s) == Ok::<Seq<SpecItem>, SpecError>(items),
        forall|k: int|
            0 <= k < items.len() && !((#[trigger] items[k]).rule == RuleId::Function
                || items[k].rule == RuleId::StructDef || items[k].rule == RuleId::EndOfInput)
                ==> count_char(s.subrange(items[k].start, items[k].end), '\n') == 0,
    ensures
        spec_output(s) == Some(banner_text() + spec_lines(s, items)),
        count_char(spec_lines(s, items), '\n') == items.len() - 1,
{
    lemma_parse_items_wf(s, 0);
    lemma_lines_newline_count(s, items);
    lemma_construct_count_all_but_last(items);
}

proof fn lemma_skip_ws_stable(s: Seq<char>, g: Seq<char>, i: int)
    requires
        0 <= i <= s.len(),
        g.len() > 0,
        !is_ws_char(g[0]),
    ensures
        skip_ws(s + g, i) == skip_ws(s, i),
{
    lemma_skip_ws(s, i);
    let j = skip_ws(s, i);
    assert forall|k: int| i <= k < j implies is_ws_char(#[trigger] (s + g)[k]) by {
        assert((s + g)[k] == s[k]);
    }
    if j < s.len() {
        assert((s + g)[j] == s[j]);
    } else {
        assert((s + g)[j] == g[0]);
    }
    lemma_skip_ws_exact(s + g, i, j);
}

proof fn lemma_ident_end_stable(s: Seq<char>, g: Seq<char>, i: int)
    requires
        0 <= i <= s.len(),
        g.len() > 0,
        !is_ident_char(g[0]),
    ensures
        ident_end(s + g, i) == ident_end(s, i),
{
    lemma_ident_end(s, i);
    let j = ident_end(s, i);
    assert forall|k: int| i <= k < j implies is_ident_char(#[trigger] (s + g)[k]) by {
        assert((s + g)[k] == s[k]);
    }
    if j < s.len() {
        assert((s + g)[j] == s[j]);
    } else {
        assert((s + g)[j] == g[0]);
    }
    lemma_ident_end_exact(s + g, i, j);
}

proof fn lemma_kw_chars()
    ensures
        forall|j: int| 0 <= j < kw_fn().len() ==> is_ident_char(#[trigger] kw_fn()[j]),
        forall|j: int| 0 <= j < kw_struct().len() ==> is_ident_char(#[trigger] kw_struct()[j]),
        forall|j: int| 0 <= j < kw_enum().len() ==> is_ident_char(#[trigger] kw_enum()[j]),
        kw_fn().len() == 2,
        kw_struct().len() == 6,
        kw_enum().len() == 4,
{
    assert(is_ident_char('f') && is_ident_char('n'));
    assert(is_ident_char('s') && is_ident_char('t') && is_ident_char('r') && is_ident_char('u')
        && is_ident_char('c'));
    assert(is_ident_char('e') && is_ident_char('m'));
}

proof fn lemma_kw_at_stable(s: Seq<char>, g: Seq<char>, p: int, w: Seq<char>)
    requires
        g.len() > 0,
        !is_ws_char(g[0]),
        !is_ident_char(g[0]),
        0 <= p <= s.len(),
        w.len() > 0,
        forall|j: int| 0 <= j < w.len() ==> is_ident_char(#[trigger] w[j]),
    ensures
        kw_at(s + g, p, w) == kw_at(s, p, w),
{
    let t = s + g;
    if p + w.len() < s.len() {
        if matches_at(s, p, w) {
            assert forall|j: int| 0 <= j < w.len() implies t[p + j] == #[trigger] w[j] by {
                assert((s + g)[p + j] == s[p + j]);
            }
            assert(t[p + w.len()] == s[p + w.len()]);
        }
        if matches_at(t, p, w) {
            assert forall|j: int| 0 <= j < w.len() implies s[p + j] == #[trigger] w[j] by {
                assert((s + g)[p + j] == s[p + j]);
            }
            assert(t[p + w.len()] == s[p + w.len()]);
        }
    } else if p + w.len() == s.len() {
        assert(!kw_at(s, p, w));
        assert(t[p + w.len()] == g[0]);
        assert(!kw_at(t, p, w));
    } else {
        assert(!matches_at(s, p, w));
        if matches_at(t, p, w) {
            let j0 = s.len() - p;
            assert(t[p + j0] == w[j0]);
            assert(t[s.len() as int] == g[0]);
            assert(is_ident_char(w[j0]));
            assert(false);
        }
    }
}

proof fn lemma_kw_lookup_stable(s: Seq<char>, g: Seq<char>, p: int)
    requires
        0 <= p <= s.len(),
        g.len() > 0,
        !is_ws_char(g[0]),
        !is_ident_char(g[0]),
    ensures
        kw_lookup(s + g, p) == kw_lookup(s, p),
{
    lemma_kw_chars();
    lemma_kw_at_stable(s, g, p, kw_fn());
    lemma_kw_at_stable(s, g, p, kw_struct());
    lemma_kw_at_stable(s, g, p, kw_enum());
}

proof fn lemma_parse_items_extend(s: Seq<char>, g: Seq<char>, i: int)
    requires
        0 <= i <= s.len(),
        parse_items(s, i) is Ok,
        g.len() > 0,
        !is_ws_char(g[0]),
        !is_ident_char(g[0]),
    ensures
        parse_items(s + g, i) == Err::<Seq<SpecItem>, SpecError>(
            SpecError { offset: s.len() as int, expected: item_expected() },
        ),
    decreases s.len() - i,
{
    let t = s + g;
    let p = skip_ws(s, i);
    lemma_skip_ws(s, i);
    lemma_skip_ws_stable(s, g, i);
    if p == s.len() {
        lemma_kw_chars();
        assert(t[p] == g[0]);
        assert(!kw_at(t, p, kw_fn())) by {
            if matches_at(t, p, kw_fn()) {
                assert(t[p + 0] == kw_fn()[0]);
            }
        }
        assert(!kw_at(t, p, kw_struct())) by {
            if matches_at(t, p, kw_struct()) {
                assert(t[p + 0] == kw_struct()[0]);
            }
        }
        assert(!kw_at(t, p, kw_enum())) by {
            if matches_at(t, p, kw_enum()) {
                assert(t[p + 0] == kw_enum()[0]);
            }
        }
        assert(kw_lookup(t, p) is None);
        lemma_parse_items_no_item(t, i);
    } else {
        if kw_lookup(s, p) is None {
            lemma_parse_items_no_item(s, i);
            assert(false);
        }
        let rk = kw_lookup(s, p)->0;
        let rule = rk.0;
        let klen = rk.1;
        lemma_kw_lookup_some(s, p, rule, klen);
        let ns = skip_ws(s, p + klen);
        lemma_skip_ws(s, p + klen);
        if !(ns < s.len() && is_ident_start_char(s[ns])) {
            lemma_parse_items_no_name(s, i, rule, klen);
            assert(false);
        }
        lemma_parse_items_decl(s, i, rule, klen);
        let ne = ident_end(s, ns);
        assert(parse_items(s, ne) is Ok);
        lemma_kw_lookup_stable(s, g, p);
        lemma_skip_ws_stable(s, g, p + klen);
        lemma_ident_end_stable(s, g, ns);
        assert(t[ns] == s[ns]);
        lemma_parse_items_decl(t, i, rule, klen);
        lemma_parse_items_extend(s, g, ne);
    }
}

/// Rejection of trailing garbage: a source the grammar accepts, followed
/// by a tail whose first character is no whitespace and no identifier
/// character — so it can neither extend the last construct nor begin a new
/// one — fails to parse, exactly at the tail's offset, and owes no output.
pub proof fn lemma_trailing_garbage(s: Seq<char>, g: Seq<char>)
    requires
        spec_parse(s) is Ok,
        g.len() > 0,
        !is_ws_char(g[0]),
        !is_ident_char(g[0]),
    ensures
        spec_parse(s + g) == Err::<Seq<SpecItem>, SpecError>(
            SpecError { offset: s.len() as int, expected: item_expected() },
        ),
        spec_output(s + g) is None,
{
    lemma_parse_items_extend(s, g, 0);
}

/// An empty source is accepted and owes the banner line alone.
pub proof fn lemma_empty_source()
    ensures
        spec_output(Seq::empty()) == Some(banner_text()),
{
    let s = Seq::<char>::empty();
    lemma_parse_items_eoi(s, 0);
    reveal_with_fuel(spec_lines, 2);
    let items = spec_parse(s)->Ok_0;
    assert(items.drop_first() =~= Seq::<SpecItem>::empty());
    assert(spec_item_line(s, items[0]) + Seq::<char>::empty() =~= Seq::<char>::empty());
    assert(banner_text() + spec_lines(s, items) =~= banner_text());
}

} // verus!
