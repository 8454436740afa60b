//! The grammar of the extension language.
//!
//! The grammar is stated here as specification functions over the source
//! text, viewed as a sequence of characters. `parse_items` is the grammar's
//! meaning: for every source text it yields either the sequence of top-level
//! items (each with its span and, for declarations, the span of its name)
//! or the position and expectations of the first failure. The executable
//! parser in `lang` is verified to return exactly this result.
//!
//! Productions, in order of attempt at each top-level position:
//! whitespace is skipped; at the end of the source the end-of-input marker
//! matches; `fn`, `struct` or `enum`, each followed by whitespace and an
//! identifier, match a declaration; anything else is a syntax error.

use vstd::prelude::*;

verus! {

/// Identifier of a grammar rule: the syntactic category that a parse node
/// was matched by. The set of rules is fixed at build time.
#[derive(Clone, Copy, PartialEq, Eq, Structural, Debug)]
pub enum RuleId {
    /// The whole-file rule; the root of every parse tree.
    File,
    /// A top-level function declaration: `fn`, whitespace, a name.
    Function,
    /// A top-level structure declaration: `struct`, whitespace, a name.
    StructDef,
    /// A top-level enumeration declaration: `enum`, whitespace, a name.
    EnumDef,
    /// An identifier: an ASCII letter or `_`, then letters, digits or `_`.
    Identifier,
    /// The end-of-input marker; matches only at the true end of the source.
    EndOfInput,
}

/// Whitespace characters of the grammar.
pub open spec fn is_ws_char(c: char) -> bool {
    c == ' ' || c == '\t' || c == '\n' || c == '\r'
}

/// Characters that may start an identifier: ASCII letters and `_`.
pub open spec fn is_ident_start_char(c: char) -> bool {
    (97 <= c as u32 && c as u32 <= 122)  // 'a' ..= 'z'
    || (65 <= c as u32 && c as u32 <= 90)  // 'A' ..= 'Z'
    || c == '_'
}

/// Characters that may continue an identifier: letters, digits and `_`.
pub open spec fn is_ident_char(c: char) -> bool {
    is_ident_start_char(c) || (48 <= c as u32 && c as u32 <= 57)  // '0' ..= '9'
}

/// The keyword that opens a function declaration.
pub open spec fn kw_fn() -> Seq<char> {
    seq!['f', 'n']
}

/// The keyword that opens a structure declaration.
pub open spec fn kw_struct() -> Seq<char> {
    seq!['s', 't', 'r', 'u', 'c', 't']
}

/// The keyword that opens an enumeration declaration.
pub open spec fn kw_enum() -> Seq<char> {
    seq!['e', 'n', 'u', 'm']
}

/// The characters of `w` occur in `s` at position `i`.
pub open spec fn matches_at(s: Seq<char>, i: int, w: Seq<char>) -> bool {
    &&& 0 <= i
    &&& i + w.len() <= s.len()
    &&& forall|j: int| 0 <= j < w.len() ==> s[i + j] == #[trigger] w[j]
}

/// A keyword occurrence: the keyword's characters at position `i`, followed
/// by at least one whitespace character, so that a keyword never runs into
/// the name after it.
pub open spec fn kw_at(s: Seq<char>, i: int, w: Seq<char>) -> bool {
    &&& matches_at(s, i, w)
    &&& i + w.len() < s.len()
    &&& is_ws_char(s[i + w.len()])
}

/// The position of the first non-whitespace character at or after `i`,
/// or the end of the source if only whitespace remains.
pub open spec fn skip_ws(s: Seq<char>, i: int) -> int
    decreases s.len() - i,
{
    if 0 <= i < s.len() && is_ws_char(s[i]) {
        skip_ws(s, i + 1)
    } else {
        i
    }
}

/// The end of the maximal run of identifier characters starting at `i`.
pub open spec fn ident_end(s: Seq<char>, i: int) -> int
    decreases s.len() - i,
{
    if 0 <= i < s.len() && is_ident_char(s[i]) {
        ident_end(s, i + 1)
    } else {
        i
    }
}

pub proof fn lemma_skip_ws(s: Seq<char>, i: int)
    requires
        0 <= i <= s.len(),
    ensures
        i <= skip_ws(s, i) <= s.len(),
        forall|j: int| i <= j < skip_ws(s, i) ==> is_ws_char(#[trigger] s[j]),
        skip_ws(s, i) < s.len() ==> !is_ws_char(s[skip_ws(s, i)]),
    decreases s.len() - i,
{
    if i < s.len() && is_ws_char(s[i]) {
        lemma_skip_ws(s, i + 1);
    }
}

pub proof fn lemma_skip_ws_exact(s: Seq<char>, i: int, j: int)
    requires
        0 <= i <= j <= s.len(),
        forall|k: int| i <= k < j ==> is_ws_char(#[trigger] s[k]),
        j < s.len() ==> !is_ws_char(s[j]),
    ensures
        skip_ws(s, i) == j,
    decreases j - i,
{
    if i < j {
        lemma_skip_ws_exact(s, i + 1, j);
    }
}

pub proof fn lemma_ident_end(s: Seq<char>, i: int)
    requires
        0 <= i <= s.len(),
    ensures
        i <= ident_end(s, i) <= s.len(),
        forall|j: int| i <= j < ident_end(s, i) ==> is_ident_char(#[trigger] s[j]),
        ident_end(s, i) < s.len() ==> !is_ident_char(s[ident_end(s, i)]),
    decreases s.len() - i,
{
    if i < s.len() && is_ident_char(s[i]) {
        lemma_ident_end(s, i + 1);
    }
}

pub proof fn lemma_ident_end_exact(s: Seq<char>, i: int, j: int)
    requires
        0 <= i <= j <= s.len(),
        forall|k: int| i <= k < j ==> is_ident_char(#[trigger] s[k]),
        j < s.len() ==> !is_ident_char(s[j]),
    ensures
        ident_end(s, i) == j,
    decreases j - i,
{
    if i < j {
        lemma_ident_end_exact(s, i + 1, j);
    }
}

/// A top-level item as the grammar sees it: its rule, the span
/// `[start, end)` of its matched text in the source, and, for declarations,
/// the span `[name_start, name_end)` of the declared name.
pub struct SpecItem {
    pub rule: RuleId,
    pub start: int,
    pub end: int,
    pub name_start: int,
    pub name_end: int,
}

/// A parse failure: the position of the first character that no grammar
/// alternative could match, and the rules that were attempted there.
pub struct SpecError {
    pub offset: int,
    pub expected: Seq<RuleId>,
}

/// The rules attempted at a top-level position.
pub open spec fn item_expected() -> Seq<RuleId> {
    seq![RuleId::Function, RuleId::StructDef, RuleId::EnumDef, RuleId::EndOfInput]
}

/// The rule attempted after a declaration keyword.
pub open spec fn name_expected() -> Seq<RuleId> {
    seq![RuleId::Identifier]
}

/// The declaration keyword, if any, at position `p`: its rule and its length.
pub open spec fn kw_lookup(s: Seq<char>, p: int) -> Option<(RuleId, int)> {
    if kw_at(s, p, kw_fn()) {
        Some((RuleId::Function, 2))
    } else if kw_at(s, p, kw_struct()) {
        Some((RuleId::StructDef, 6))
    } else if kw_at(s, p, kw_enum()) {
        Some((RuleId::EnumDef, 4))
    } else {
        None
    }
}

/// The end-of-input marker as an item: an empty span at the end.
pub open spec fn eoi_item(at: int) -> SpecItem {
    SpecItem { rule: RuleId::EndOfInput, start: at, end: at, name_start: at, name_end: at }
}

/// A declaration item: keyword at `p`, name span `[ns, ne)`, whole span
/// `[p, ne)`.
pub open spec fn decl_item(rule: RuleId, p: int, ns: int, ne: int) -> SpecItem {
    SpecItem { rule, start: p, end: ne, name_start: ns, name_end: ne }
}

/// The grammar's meaning from position `i` on: the remaining top-level
/// items (ending with the end-of-input marker), or the first failure.
/// Matching is deterministic: alternatives are tried in a fixed order and
/// the first that matches wins.
pub open spec fn parse_items(s: Seq<char>, i: int) -> Result<Seq<SpecItem>, SpecError>
    decreases s.len() - i,
    when 0 <= i <= s.len()
{
    let p = skip_ws(s, i);
    if p == s.len() {
        Ok(seq![eoi_item(p)])
    } else {
        match kw_lookup(s, p) {
            Some((rule, klen)) => {
                let ns = skip_ws(s, p + klen);
                if ns < s.len() && is_ident_start_char(s[ns]) {
                    let ne = ident_end(s, ns);
                    proof {
                        lemma_skip_ws(s, i);
                        lemma_skip_ws(s, p + klen);
                        lemma_ident_end(s, ns);
                    }
                    match parse_items(s, ne) {
                        Ok(rest) => Ok(seq![decl_item(rule, p, ns, ne)] + rest),
                        Err(e) => Err(e),
                    }
                } else {
                    Err(SpecError { offset: ns, expected: name_expected() })
                }
            },
            None => Err(SpecError { offset: p, expected: item_expected() }),
        }
    }
}

/// `done` followed by the outcome `r`: the items of both where `r`
/// succeeded, `r`'s failure otherwise.
pub open spec fn append_result(
    done: Seq<SpecItem>,
    r: Result<Seq<SpecItem>, SpecError>,
) -> Result<Seq<SpecItem>, SpecError> {
    match r {
        Ok(rest) => Ok(done + rest),
        Err(e) => Err(e),
    }
}

pub proof fn lemma_append_result_empty(r: Result<Seq<SpecItem>, SpecError>)
    ensures
        append_result(Seq::empty(), r) == r,
{
    match r {
        Ok(rest) => {
            assert(Seq::<SpecItem>::empty() + rest =~= rest);
        },
        Err(_) => {},
    }
}

pub proof fn lemma_append_result_assoc(
    a: Seq<SpecItem>,
    b: Seq<SpecItem>,
    r: Result<Seq<SpecItem>, SpecError>,
)
    ensures
        append_result(a + b, r) == append_result(a, append_result(b, r)),
{
    match r {
        Ok(rest) => {
            assert((a + b) + rest =~= a + (b + rest));
        },
        Err(_) => {},
    }
}

/// What a keyword table entry guarantees about the source at its position.
pub proof fn lemma_kw_lookup_some(s: Seq<char>, p: int, rule: RuleId, klen: int)
    requires
        kw_lookup(s, p) == Some((rule, klen)),
    ensures
        2 <= klen <= 6,
        0 <= p,
        p + klen < s.len(),
        is_ws_char(s[p + klen]),
        rule == RuleId::Function || rule == RuleId::StructDef || rule == RuleId::EnumDef,
{
    assert(kw_fn().len() == 2);
    assert(kw_struct().len() == 6);
    assert(kw_enum().len() == 4);
}

pub proof fn lemma_parse_items_eoi(s: Seq<char>, i: int)
    requires
        0 <= i <= s.len(),
        skip_ws(s, i) == s.len(),
    ensures
        parse_items(s, i) == Ok::<Seq<SpecItem>, SpecError>(seq![eoi_item(s.len() as int)]),
{
}

pub proof fn lemma_parse_items_no_item(s: Seq<char>, i: int)
    requires
        0 <= i <= s.len(),
        skip_ws(s, i) < s.len(),
        kw_lookup(s, skip_ws(s, i)) is None,
    ensures
        parse_items(s, i) == Err::<Seq<SpecItem>, SpecError>(
            SpecError { offset: skip_ws(s, i), expected: item_expected() },
        ),
{
}

pub proof fn lemma_parse_items_no_name(s: Seq<char>, i: int, rule: RuleId, klen: int)
    requires
        0 <= i <= s.len(),
        skip_ws(s, i) < s.len(),
        kw_lookup(s, skip_ws(s, i)) == Some((rule, klen)),
        !({
            let ns = skip_ws(s, skip_ws(s, i) + klen);
            ns < s.len() && is_ident_start_char(s[ns])
        }),
    ensures
        parse_items(s, i) == Err::<Seq<SpecItem>, SpecError>(
            SpecError {
                offset: skip_ws(s, skip_ws(s, i) + klen),
                expected: name_expected(),
            },
        ),
{
}

pub proof fn lemma_parse_items_decl(s: Seq<char>, i: int, rule: RuleId, klen: int)
    requires
        0 <= i <= s.len(),
        skip_ws(s, i) < s.len(),
        kw_lookup(s, skip_ws(s, i)) == Some((rule, klen)),
        ({
            let ns = skip_ws(s, skip_ws(s, i) + klen);
            ns < s.len() && is_ident_start_char(s[ns])
        }),
    ensures
        ({
            let p = skip_ws(s, i);
            let ns = skip_ws(s, p + klen);
            let ne = ident_end(s, ns);
            &&& parse_items(s, i) == append_result(
                seq![decl_item(rule, p, ns, ne)],
                parse_items(s, ne),
            )
            &&& i < ne <= s.len()
        }),
{
    let p = skip_ws(s, i);
    lemma_skip_ws(s, i);
    lemma_kw_lookup_some(s, p, rule, klen);
    lemma_skip_ws(s, p + klen);
    let ns = skip_ws(s, p + klen);
    lemma_ident_end(s, ns);
    let ne = ident_end(s, ns);
    match parse_items(s, ne) {
        Ok(rest) => {},
        Err(_) => {},
    }
}

/// The Grammar Engine's contract on a whole source unit: match the
/// whole-file rule against the entire input, from its first character.
pub open spec fn spec_parse(s: Seq<char>) -> Result<Seq<SpecItem>, SpecError> {
    parse_items(s, 0)
}

/// Tests whether `c` is one of the grammar's whitespace characters.
pub fn ws_char(c: char) -> (r: bool)
    ensures
        r == is_ws_char(c),
{
    c == ' ' || c == '\t' || c == '\n' || c == '\r'
}

/// Tests whether `c` may start an identifier.
pub fn ident_start_char(c: char) -> (r: bool)
    ensures
        r == is_ident_start_char(c),
{
    let u = c as u32;
    (97 <= u && u <= 122) || (65 <= u && u <= 90) || c == '_'
}

/// Tests whether `c` may continue an identifier.
pub fn ident_char(c: char) -> (r: bool)
    ensures
        r == is_ident_char(c),
{
    let u = c as u32;
    ident_start_char(c) || (48 <= u && u <= 57)
}

} // verus!
