//! The tree-to-declarations transpiler.
//!
//! `transpile` walks the root's children in source order and emits one
//! C++ declaration line per recognized construct after a fixed banner
//! comment; unrecognized constructs are echoed in a visible comment, never
//! dropped. `transpile_to_cpp` emits the bare declaration lines alone,
//! for a caller that writes a header body without the banner.

use crate::grammar::RuleId;
use crate::lang::ParseNode;
use vstd::prelude::*;
use vstd::string::StringExecFns;

verus! {

/// A recognized declaration node unexpectedly lacked its identifier child:
/// the grammar and the transpiler's rule table disagree. This is a defect
/// of the grammar/transpiler pairing, not of the input; it aborts the
/// transpilation of the unit.
#[derive(Clone, Copy, PartialEq, Eq, Structural, Debug)]
pub struct InternalConsistencyError {
    /// Position of the offending node among the root's children.
    pub child_index: usize,
    /// The rule of the offending node.
    pub rule: RuleId,
}

/// The fixed banner comment that opens every generated output.
pub open spec fn banner_text() -> Seq<char> {
    "// Generated C++ header\n\n"@
}

/// The rules whose output needs the declared name, and therefore the
/// identifier child.
pub open spec fn needs_name(r: RuleId) -> bool {
    r == RuleId::Function || r == RuleId::StructDef
}

/// The node carries what its declaration line needs.
pub open spec fn child_ok(n: ParseNode) -> bool {
    needs_name(n.rule) ==> n.children@.len() >= 1
}

/// Every top-level node carries what its declaration line needs.
pub open spec fn tree_ok(t: ParseNode) -> bool {
    forall|k: int| 0 <= k < t.children@.len() ==> child_ok(#[trigger] t.children@[k])
}

/// The output line for one top-level node: a function prototype, an empty
/// type declaration, nothing for the end-of-input marker, and a comment
/// echoing the matched text verbatim for every unmapped rule.
pub open spec fn child_line(n: ParseNode) -> Seq<char> {
    if n.rule == RuleId::Function {
        "void "@ + n.children@[0].text@ + "();\n"@
    } else if n.rule == RuleId::StructDef {
        "struct "@ + n.children@[0].text@ + " {};\n"@
    } else if n.rule == RuleId::EndOfInput {
        Seq::empty()
    } else {
        "// Unhandled: "@ + n.text@ + "\n"@
    }
}

/// The output lines of the nodes `cs`, concatenated in order.
pub open spec fn lines_concat(cs: Seq<ParseNode>) -> Seq<char>
    decreases cs.len(),
{
    if cs.len() == 0 {
        Seq::empty()
    } else {
        child_line(cs[0]) + lines_concat(cs.drop_first())
    }
}

/// The whole Declaration Text of a parse tree: the banner, then one line
/// per top-level construct, in source order.
pub open spec fn transpiled_text(t: ParseNode) -> Seq<char> {
    banner_text() + lines_concat(t.children@)
}

pub proof fn lemma_lines_concat_push(cs: Seq<ParseNode>, c: ParseNode)
    ensures
        lines_concat(cs.push(c)) == lines_concat(cs) + child_line(c),
    decreases cs.len(),
{
    reveal_with_fuel(lines_concat, 2);
    if cs.len() == 0 {
        assert(cs.push(c)[0] == c);
        assert(cs.push(c).drop_first() =~= Seq::<ParseNode>::empty());
        assert(lines_concat(cs.push(c)) == child_line(c) + lines_concat(
            Seq::<ParseNode>::empty(),
        ));
        assert(child_line(c) + Seq::<char>::empty() =~= child_line(c));
        assert(lines_concat(cs) + child_line(c) =~= child_line(c));
    } else {
        let rest = cs.drop_first();
        assert(cs.push(c)[0] == cs[0]);
        assert(cs.push(c).drop_first() =~= rest.push(c));
        lemma_lines_concat_push(rest, c);
        assert(lines_concat(cs.push(c)) == child_line(cs[0]) + lines_concat(rest.push(c)));
        assert(lines_concat(cs) == child_line(cs[0]) + lines_concat(rest));
        assert((child_line(cs[0]) + lines_concat(rest)) + child_line(c) =~= child_line(cs[0]) + (
        lines_concat(rest) + child_line(c)));
    }
}

/// The output line for one top-level parse node, or the internal
/// inconsistency it exposes.
pub fn transpile_item(node: &ParseNode) -> (r: Result<String, InternalConsistencyError>)
    ensures
        match r {
            Ok(out) => child_ok(*node) && out@ == child_line(*node),
            Err(e) => {
                &&& !child_ok(*node)
                &&& e.child_index == 0
                &&& e.rule == node.rule
            },
        },
{
    match node.rule {
        RuleId::Function => {
            if node.children.len() == 0 {
                return Err(InternalConsistencyError { child_index: 0, rule: node.rule });
            }
            let mut out = String::new();
            out.append("void ");
            out.append(node.children[0].text.as_str());
            out.append("();\n");
            proof {
                assert(out@ =~= child_line(*node));
            }
            Ok(out)
        },
        RuleId::StructDef => {
            if node.children.len() == 0 {
                return Err(InternalConsistencyError { child_index: 0, rule: node.rule });
            }
            let mut out = String::new();
            out.append("struct ");
            out.append(node.children[0].text.as_str());
            out.append(" {};\n");
            proof {
                assert(out@ =~= child_line(*node));
            }
            Ok(out)
        },
        RuleId::EndOfInput => {
            let out = String::new();
            proof {
                assert(out@ =~= child_line(*node));
            }
            Ok(out)
        },
        _ => {
            let mut out = String::new();
            out.append("// Unhandled: ");
            out.append(node.text.as_str());
            out.append("\n");
            proof {
                assert(out@ =~= child_line(*node));
            }
            Ok(out)
        },
    }
}

/// Produces the Declaration Text for a parse tree: the banner comment,
/// then, for each of the root's children in source order, its output line.
/// Fails, with the first offending child, exactly when a recognized
/// declaration node lacks its identifier child.
pub fn transpile(tree: &ParseNode) -> (r: Result<String, InternalConsistencyError>)
    ensures
        match r {
            Ok(out) => tree_ok(*tree) && out@ == transpiled_text(*tree),
            Err(e) => {
                &&& !tree_ok(*tree)
                &&& e.child_index < tree.children@.len()
                &&& !child_ok(tree.children@[e.child_index as int])
                &&& e.rule == tree.children@[e.child_index as int].rule
                &&& forall|k: int|
                    0 <= k < e.child_index ==> child_ok(#[trigger] tree.children@[k])
            },
        },
{
    let mut out = String::new();
    out.append("// Generated C++ header\n\n");
    proof {
        assert(out@ =~= banner_text() + lines_concat(tree.children@.take(0)));
    }
    let n = tree.children.len();
    let mut idx: usize = 0;
    while idx < n
        invariant
            idx <= n,
            n == tree.children@.len(),
            forall|k: int| 0 <= k < idx ==> child_ok(#[trigger] tree.children@[k]),
            out@ == banner_text() + lines_concat(tree.children@.take(idx as int)),
        decreases n - idx,
    {
        match transpile_item(&tree.children[idx]) {
            Ok(line) => {
                out.append(line.as_str());
                proof {
                    assert(tree.children@.take(idx as int).push(tree.children@[idx as int])
                        =~= tree.children@.take(idx + 1));
                    lemma_lines_concat_push(
                        tree.children@.take(idx as int),
                        tree.children@[idx as int],
                    );
                    assert(out@ =~= banner_text() + lines_concat(
                        tree.children@.take(idx + 1),
                    ));
                }
            },
            Err(e) => {
                proof {
                    assert(!child_ok(tree.children@[idx as int]));
                }
                return Err(InternalConsistencyError { child_index: idx, rule: e.rule });
            },
        }
        idx = idx + 1;
    }
    proof {
        assert(tree.children@.take(n as int) =~= tree.children@);
    }
    Ok(out)
}

/// The bare declaration line of a node as `transpile_to_cpp` emits it:
/// prototypes and type declarations only, nothing for any other rule.
pub open spec fn cpp_line(n: ParseNode) -> Seq<char> {
    if n.rule == RuleId::Function {
        "void "@ + n.children@[0].text@ + "();\n"@
    } else if n.rule == RuleId::StructDef {
        "struct "@ + n.children@[0].text@ + " {};\n"@
    } else {
        Seq::empty()
    }
}

/// The bare declaration lines of the nodes `cs`, concatenated in order.
pub open spec fn cpp_concat(cs: Seq<ParseNode>) -> Seq<char>
    decreases cs.len(),
{
    if cs.len() == 0 {
        Seq::empty()
    } else {
        cpp_line(cs[0]) + cpp_concat(cs.drop_first())
    }
}

pub proof fn lemma_cpp_concat_push(cs: Seq<ParseNode>, c: ParseNode)
    ensures
        cpp_concat(cs.push(c)) == cpp_concat(cs) + cpp_line(c),
    decreases cs.len(),
{
    reveal_with_fuel(cpp_concat, 2);
    if cs.len() == 0 {
        assert(cs.push(c)[0] == c);
        assert(cs.push(c).drop_first() =~= Seq::<ParseNode>::empty());
        assert(cpp_concat(cs.push(c)) == cpp_line(c) + cpp_concat(Seq::<ParseNode>::empty()));
        assert(cpp_line(c) + Seq::<char>::empty() =~= cpp_line(c));
        assert(cpp_concat(cs) + cpp_line(c) =~= cpp_line(c));
    } else {
        let rest = cs.drop_first();
        assert(cs.push(c)[0] == cs[0]);
        assert(cs.push(c).drop_first() =~= rest.push(c));
        lemma_cpp_concat_push(rest, c);
        assert(cpp_concat(cs.push(c)) == cpp_line(cs[0]) + cpp_concat(rest.push(c)));
        assert(cpp_concat(cs) == cpp_line(cs[0]) + cpp_concat(rest));
        assert((cpp_line(cs[0]) + cpp_concat(rest)) + cpp_line(c) =~= cpp_line(cs[0]) + (
        cpp_concat(rest) + cpp_line(c)));
    }
}

/// Produces the body of a generated header without the banner: one
/// prototype per function declaration and one empty type declaration per
/// structure declaration among the root's children, in source order; all
/// other rules emit nothing here. Fails, with the first offending child,
/// exactly when a recognized declaration node lacks its identifier child.
/// Writing the returned text to storage is the caller's business.
#[verifier::rlimit(50)]
pub fn transpile_to_cpp(tree: &ParseNode) -> (r: Result<String, InternalConsistencyError>)
    ensures
        match r {
            Ok(out) => tree_ok(*tree) && out@ == cpp_concat(tree.children@),
            Err(e) => {
                &&& !tree_ok(*tree)
                &&& e.child_index < tree.children@.len()
                &&& !child_ok(tree.children@[e.child_index as int])
                &&& e.rule == tree.children@[e.child_index as int].rule
                &&& forall|k: int|
                    0 <= k < e.child_index ==> child_ok(#[trigger] tree.children@[k])
            },
        },
{
    let mut out = String::new();
    proof {
        assert(out@ =~= cpp_concat(tree.children@.take(0)));
    }
    let n = tree.children.len();
    let mut idx: usize = 0;
    while idx < n
        invariant
            idx <= n,
            n == tree.children@.len(),
            forall|k: int| 0 <= k < idx ==> child_ok(#[trigger] tree.children@[k]),
            out@ == cpp_concat(tree.children@.take(idx as int)),
        decreases n - idx,
    {
        let c = &tree.children[idx];
        match c.rule {
            RuleId::Function => {
                if c.children.len() == 0 {
                    proof {
                        assert(!child_ok(tree.children@[idx as int]));
                    }
                    return Err(InternalConsistencyError { child_index: idx, rule: c.rule });
                }
                out.append("void ");
                out.append(c.children[0].text.as_str());
                out.append("();\n");
            },
            RuleId::StructDef => {
                if c.children.len() == 0 {
                    proof {
                        assert(!child_ok(tree.children@[idx as int]));
                    }
                    return Err(InternalConsistencyError { child_index: idx, rule: c.rule });
                }
                out.append("struct ");
                out.append(c.children[0].text.as_str());
                out.append(" {};\n");
            },
            _ => {},
        }
        proof {
            assert(tree.children@.take(idx as int).push(tree.children@[idx as int])
                =~= tree.children@.take(idx + 1));
            lemma_cpp_concat_push(tree.children@.take(idx as int), tree.children@[idx as int]);
            assert(out@ =~= cpp_concat(tree.children@.take(idx + 1)));
        }
        idx = idx + 1;
    }
    proof {
        assert(tree.children@.take(n as int) =~= tree.children@);
    }
    Ok(out)
}

} // verus!
