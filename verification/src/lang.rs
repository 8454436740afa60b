//! The executable Grammar Engine.
//!
//! `LangParser::parse` matches the whole-file rule against the entire
//! input and builds the parse tree, or reports the first position where
//! no grammar alternative could extend the match. Its result is proved to
//! be exactly what the grammar in `grammar` prescribes.

use crate::grammar::{
    append_result, decl_item, eoi_item, ident_char, ident_end, ident_start_char, is_ident_char,
    is_ident_start_char, is_ws_char, item_expected, kw_at, kw_enum, kw_fn, kw_lookup, kw_struct,
    lemma_append_result_assoc, lemma_append_result_empty, lemma_ident_end, lemma_ident_end_exact,
    lemma_kw_lookup_some, lemma_parse_items_decl, lemma_parse_items_eoi, lemma_parse_items_no_item,
    lemma_parse_items_no_name, lemma_skip_ws_exact, name_expected, parse_items,
    skip_ws, spec_parse, RuleId, SpecError, SpecItem,
};
use vstd::prelude::*;
use vstd::string::StrSliceExecFns;

verus! {

/// A parse node: the rule that matched, the exact matched substring of the
/// source, and the matched children in source order (empty for terminal
/// matches).
#[derive(Debug)]
pub struct ParseNode {
    pub rule: RuleId,
    pub text: String,
    pub children: Vec<ParseNode>,
}

/// A structured parse failure: the character offset of the first position
/// where no grammar alternative could extend the match, and the rules that
/// were attempted there.
#[derive(Debug)]
pub struct SyntaxError {
    pub offset: usize,
    pub expected: Vec<RuleId>,
}

/// The node stands for the item `it` of source `s`: same rule, the item's
/// span as text, and, for a declaration, exactly one child carrying the
/// declared name.
pub open spec fn node_matches_item(n: ParseNode, s: Seq<char>, it: SpecItem) -> bool {
    &&& n.rule == it.rule
    &&& n.text@ == s.subrange(it.start, it.end)
    &&& if it.rule == RuleId::EndOfInput {
        n.children@.len() == 0
    } else {
        &&& n.children@.len() == 1
        &&& n.children@[0].rule == RuleId::Identifier
        &&& n.children@[0].text@ == s.subrange(it.name_start, it.name_end)
        &&& n.children@[0].children@.len() == 0
    }
}

/// The tree is the parse of source `s`: the grammar accepts `s`, the root
/// matches the whole-file rule over the whole input, and the children are
/// the grammar's top-level items, in source order.
pub open spec fn tree_matches(t: ParseNode, s: Seq<char>) -> bool {
    &&& spec_parse(s) is Ok
    &&& t.rule == RuleId::File
    &&& t.text@ == s
    &&& t.children@.len() == spec_parse(s)->Ok_0.len()
    &&& forall|k: int|
        0 <= k < t.children@.len() ==> node_matches_item(
            #[trigger] t.children@[k],
            s,
            spec_parse(s)->Ok_0[k],
        )
}

/// The error is the grammar's verdict on source `s`: the grammar rejects
/// `s`, at this offset, expecting these rules.
pub open spec fn error_matches(e: SyntaxError, s: Seq<char>) -> bool {
    &&& spec_parse(s) is Err
    &&& e.offset == spec_parse(s)->Err_0.offset
    &&& e.expected@ == spec_parse(s)->Err_0.expected
}

/// Scans whitespace: the position of the first non-whitespace character at
/// or after `i`.
fn scan_ws(source: &str, i: usize) -> (r: usize)
    requires
        i <= source@.len(),
    ensures
        r as int == skip_ws(source@, i as int),
        i <= r <= source@.len(),
{
    let n = source.unicode_len();
    let mut j = i;
    while j < n && ws_at(source, j)
        invariant
            i <= j <= n,
            n == source@.len(),
            forall|k: int| i <= k < j ==> is_ws_char(#[trigger] source@[k]),
        decreases n - j,
    {
        j = j + 1;
    }
    proof {
        lemma_skip_ws_exact(source@, i as int, j as int);
    }
    j
}

/// Tests whether the character at `j` is whitespace.
fn ws_at(source: &str, j: usize) -> (r: bool)
    requires
        j < source@.len(),
    ensures
        r == is_ws_char(source@[j as int]),
{
    crate::grammar::ws_char(source.get_char(j))
}

/// Scans an identifier: the end of the maximal run of identifier
/// characters starting at `i`.
fn scan_ident(source: &str, i: usize) -> (r: usize)
    requires
        i <= source@.len(),
    ensures
        r as int == ident_end(source@, i as int),
        i <= r <= source@.len(),
{
    let n = source.unicode_len();
    let mut j = i;
    while j < n && ident_at(source, j)
        invariant
            i <= j <= n,
            n == source@.len(),
            forall|k: int| i <= k < j ==> is_ident_char(#[trigger] source@[k]),
        decreases n - j,
    {
        j = j + 1;
    }
    proof {
        lemma_ident_end_exact(source@, i as int, j as int);
    }
    j
}

/// Tests whether the character at `j` may continue an identifier.
fn ident_at(source: &str, j: usize) -> (r: bool)
    requires
        j < source@.len(),
    ensures
        r == is_ident_char(source@[j as int]),
{
    ident_char(source.get_char(j))
}

/// Tests for a keyword at position `p`: the keyword's characters followed
/// by one whitespace character.
fn kw_check(source: &str, p: usize, kw: &str) -> (r: bool)
    requires
        p <= source@.len(),
    ensures
        r == kw_at(source@, p as int, kw@),
{
    let n = source.unicode_len();
    let klen = kw.unicode_len();
    if n - p <= klen {
        return false;
    }
    let mut j: usize = 0;
    while j < klen
        invariant
            0 <= j <= klen,
            n == source@.len(),
            klen == kw@.len(),
            p + klen < n,
            forall|k: int| 0 <= k < j ==> source@[p + k] == #[trigger] kw@[k],
        decreases klen - j,
    {
        if source.get_char(p + j) != kw.get_char(j) {
            proof {
                assert(source@[p + j] != kw@[j as int]);
            }
            return false;
        }
        j = j + 1;
    }
    ws_at(source, p + klen)
}

/// Parses the name after a declaration keyword at `p` of length `klen` and
/// builds the declaration's node, or reports the missing identifier.
fn parse_decl(source: &str, p: usize, klen: usize, rule: RuleId) -> (r: Result<
    (ParseNode, usize),
    SyntaxError,
>)
    requires
        kw_lookup(source@, p as int) == Some((rule, klen as int)),
    ensures
        ({
            let s = source@;
            let ns = skip_ws(s, p + klen);
            match r {
                Ok((node, ne)) => {
                    &&& ns < s.len() && is_ident_start_char(s[ns])
                    &&& ne as int == ident_end(s, ns)
                    &&& p < ne <= s.len()
                    &&& node_matches_item(node, s, decl_item(rule, p as int, ns, ne as int))
                },
                Err(e) => {
                    &&& !(ns < s.len() && is_ident_start_char(s[ns]))
                    &&& e.offset as int == ns
                    &&& e.expected@ == name_expected()
                },
            }
        }),
{
    proof {
        lemma_kw_lookup_some(source@, p as int, rule, klen as int);
    }
    let n = source.unicode_len();
    let ns = scan_ws(source, p + klen);
    if ns < n && ident_start_char(source.get_char(ns)) {
        let ne = scan_ident(source, ns);
        proof {
            lemma_ident_end(source@, ns as int);
            assert(ident_end(source@, ns as int) > ns as int || !is_ident_char(
                source@[ns as int],
            ));
        }
        let name = source.substring_char(ns, ne).to_owned();
        let text = source.substring_char(p, ne).to_owned();
        let mut kids: Vec<ParseNode> = Vec::new();
        kids.push(ParseNode { rule: RuleId::Identifier, text: name, children: Vec::new() });
        Ok((ParseNode { rule, text, children: kids }, ne))
    } else {
        let mut exp: Vec<RuleId> = Vec::new();
        exp.push(RuleId::Identifier);
        proof {
            assert(exp@ =~= name_expected());
        }
        Err(SyntaxError { offset: ns, expected: exp })
    }
}

/// The grammar engine of the extension language.
pub struct LangParser;

impl LangParser {
    /// Matches the whole-file rule against the entire input: the parse tree
    /// when the grammar accepts the whole source, the first failure
    /// otherwise. No trailing unmatched text is ever accepted.
    pub fn parse(source: &str) -> (r: Result<ParseNode, SyntaxError>)
        ensures
            match r {
                Ok(tree) => tree_matches(tree, source@),
                Err(e) => error_matches(e, source@),
            },
    {
        let ghost s = source@;
        let n = source.unicode_len();
        let mut children: Vec<ParseNode> = Vec::new();
        let ghost mut done: Seq<SpecItem> = Seq::empty();
        let mut i: usize = 0;
        proof {
            lemma_append_result_empty(parse_items(s, 0));
        }
        loop
            invariant
                i <= n,
                n == s.len(),
                s == source@,
                children@.len() == done.len(),
                forall|k: int|
                    0 <= k < done.len() ==> node_matches_item(
                        #[trigger] children@[k],
                        s,
                        done[k],
                    ),
                parse_items(s, 0) == append_result(done, parse_items(s, i as int)),
            decreases n - i,
        {
            let p = scan_ws(source, i);
            if p == n {
                proof {
                    lemma_parse_items_eoi(s, i as int);
                    done = done + seq![eoi_item(s.len() as int)];
                }
                children.push(
                    ParseNode {
                        rule: RuleId::EndOfInput,
                        text: String::new(),
                        children: Vec::new(),
                    },
                );
                let text = source.to_owned();
                proof {
                    assert(Seq::<char>::empty() =~= s.subrange(s.len() as int, s.len() as int));
                    assert(done =~= Seq::<SpecItem>::empty() + done);
                    assert(spec_parse(s) == Ok::<Seq<SpecItem>, SpecError>(done));
                    assert(s.subrange(0, s.len() as int) =~= s);
                }
                return Ok(ParseNode { rule: RuleId::File, text, children });
            }
            proof {
                reveal_strlit("fn");
                reveal_strlit("struct");
                reveal_strlit("enum");
                assert("fn"@ =~= kw_fn());
                assert("struct"@ =~= kw_struct());
                assert("enum"@ =~= kw_enum());
            }
            let fn_here = kw_check(source, p, "fn");
            let struct_here = kw_check(source, p, "struct");
            let enum_here = kw_check(source, p, "enum");
            if !fn_here && !struct_here && !enum_here {
                proof {
                    lemma_parse_items_no_item(s, i as int);
                }
                let mut exp: Vec<RuleId> = Vec::new();
                exp.push(RuleId::Function);
                exp.push(RuleId::StructDef);
                exp.push(RuleId::EnumDef);
                exp.push(RuleId::EndOfInput);
                proof {
                    assert(exp@ =~= item_expected());
                }
                return Err(SyntaxError { offset: p, expected: exp });
            }
            let (rule, klen): (RuleId, usize) = if fn_here {
                (RuleId::Function, 2)
            } else if struct_here {
                (RuleId::StructDef, 6)
            } else {
                (RuleId::EnumDef, 4)
            };
            proof {
                assert(kw_lookup(s, p as int) == Some((rule, klen as int)));
            }
            match parse_decl(source, p, klen, rule) {
                Ok((node, ne)) => {
                    proof {
                        lemma_parse_items_decl(s, i as int, rule, klen as int);
                        let it = decl_item(
                            rule,
                            p as int,
                            skip_ws(s, p + klen),
                            ne as int,
                        );
                        lemma_append_result_assoc(
                            done,
                            seq![it],
                            parse_items(s, ne as int),
                        );
                        done = done + seq![it];
                    }
                    children.push(node);
                    i = ne;
                },
                Err(e) => {
                    proof {
                        lemma_parse_items_no_name(s, i as int, rule, klen as int);
                    }
                    return Err(e);
                },
            }
        }
    }
}

/// Parses one source unit with the grammar's whole-file rule.
pub fn parse_source(source: &str) -> (r: Result<ParseNode, SyntaxError>)
    ensures
        match r {
            Ok(tree) => tree_matches(tree, source@),
            Err(e) => error_matches(e, source@),
        },
{
    LangParser::parse(source)
}

} // verus!
