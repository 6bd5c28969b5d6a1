//! Cascade resolution: matching rules to elements and computing each
//! element's specified property values.

use vstd::prelude::*;
use vstd::hash_map::StringHashMap;
use crate::css::{Value, Declaration, Selector, SimpleSelector, Rule, Stylesheet,
    spec_selector_specificity};
use crate::dom::{Node, NodeType, ElementData, spec_classes, spec_id};
use crate::strutil::str_eq;

verus! {

broadcast use vstd::std_specs::vec::group_vec_axioms;

/// Specified property values of one element, keyed by property name.
pub type PropertyMap = StringHashMap<Value>;

/// A document node together with its resolved property values and its
/// styled children.
pub struct StyledNode<'a> {
    pub node: &'a Node,
    pub specified_values: PropertyMap,
    pub children: Vec<StyledNode<'a>>,
}

/// How an element is displayed.
#[derive(Debug, Clone, Copy, PartialEq, Eq, Structural)]
pub enum Display {
    Inline,
    Block,
    /// The suppressed-box signal written `display: none`.
    Hidden,
}

// ---------------------------------------------------------------------------
// Selector matching
// ---------------------------------------------------------------------------

/// A simple selector matches an element iff every constraint it carries
/// holds: tag name equality, id equality, and every listed class present
/// in the element's class set.
pub open spec fn spec_matches_simple(e: ElementData, s: SimpleSelector) -> bool {
    &&& (s.tag_name matches Some(t) ==> t@ == e.tag_name@)
    &&& (s.id matches Some(i) ==> spec_id(e) == Some(i@))
    &&& (forall|k: int|
        0 <= k < s.classes@.len() ==> spec_classes(e).contains(#[trigger] s.classes@[k]@))
}

/// Whether a selector matches an element.
pub open spec fn spec_matches(e: ElementData, s: Selector) -> bool {
    match s {
        Selector::Simple(ss) => spec_matches_simple(e, ss),
    }
}

/// True when `v` holds a word with the given content.
fn contains_str(v: &Vec<String>, s: &str) -> (r: bool)
    ensures
        r == v@.map_values(|w: String| w@).contains(s@),
{
    let ghost words = v@.map_values(|w: String| w@);
    let mut i: usize = 0;
    while i < v.len()
        invariant
            words == v@.map_values(|w: String| w@),
            0 <= i <= v@.len(),
            forall|k: int| 0 <= k < i ==> words[k] != s@,
        decreases v@.len() - i,
    {
        if str_eq(v[i].as_str(), s) {
            assert(words[i as int] == s@);
            return true;
        }
        i = i + 1;
    }
    assert(forall|k: int| 0 <= k < words.len() ==> words[k] != s@);
    false
}

/// Whether a simple selector matches an element.
pub fn matches_simple_selector(elem: &ElementData, selector: &SimpleSelector) -> (r: bool)
    ensures
        r == spec_matches_simple(*elem, *selector),
{
    if let Some(name) = &selector.tag_name {
        if !str_eq(elem.tag_name.as_str(), name.as_str()) {
            return false;
        }
    }
    if let Some(id) = &selector.id {
        match elem.id() {
            Some(elem_id) => {
                if !str_eq(elem_id.as_str(), id.as_str()) {
                    return false;
                }
            },
            None => {
                return false;
            },
        }
    }
    let elem_classes = elem.classes();
    let mut k: usize = 0;
    while k < selector.classes.len()
        invariant
            0 <= k <= selector.classes@.len(),
            elem_classes@.map_values(|w: String| w@) == spec_classes(*elem),
            forall|j: int|
                0 <= j < k ==> spec_classes(*elem).contains(#[trigger] selector.classes@[j]@),
        decreases selector.classes@.len() - k,
    {
        if !contains_str(&elem_classes, selector.classes[k].as_str()) {
            return false;
        }
        k = k + 1;
    }
    true
}

/// Whether a selector matches an element.
pub fn matches(elem: &ElementData, selector: &Selector) -> (r: bool)
    ensures
        r == spec_matches(*elem, *selector),
{
    match *selector {
        Selector::Simple(ref simple_selector) => matches_simple_selector(elem, simple_selector),
    }
}

// ---------------------------------------------------------------------------
// Rule matching
// ---------------------------------------------------------------------------

/// The first selector of `sels`, from index `i` on, that matches `e`.
pub open spec fn spec_first_matching_from(e: ElementData, sels: Seq<Selector>, i: int) -> Option<
    Selector,
>
    decreases sels.len() - i,
{
    if i < 0 || i >= sels.len() {
        None
    } else if spec_matches(e, sels[i]) {
        Some(sels[i])
    } else {
        spec_first_matching_from(e, sels, i + 1)
    }
}

/// A rule matches when any of its selectors matches (a selector list is
/// a logical OR).
pub open spec fn spec_rule_matches(e: ElementData, r: Rule) -> bool {
    spec_first_matching_from(e, r.selectors@, 0) is Some
}

/// Specificity attributed to a matching rule: that of its first
/// matching selector.
pub open spec fn spec_rule_key(e: ElementData, r: Rule) -> (int, int, int) {
    spec_selector_specificity(spec_first_matching_from(e, r.selectors@, 0)->Some_0)
}

/// Lexicographic order on specificity triples.
pub open spec fn spec_key_le(a: (int, int, int), b: (int, int, int)) -> bool {
    a.0 < b.0 || (a.0 == b.0 && (a.1 < b.1 || (a.1 == b.1 && a.2 <= b.2)))
}

/// Exec specificity triples as their mathematical counterparts.
pub open spec fn spec_key_of(k: (usize, usize, usize)) -> (int, int, int) {
    (k.0 as int, k.1 as int, k.2 as int)
}

fn key_le(a: (usize, usize, usize), b: (usize, usize, usize)) -> (r: bool)
    ensures
        r == spec_key_le(spec_key_of(a), spec_key_of(b)),
{
    a.0 < b.0 || (a.0 == b.0 && (a.1 < b.1 || (a.1 == b.1 && a.2 <= b.2)))
}

/// A matched rule: the specificity of its first matching selector,
/// paired with the rule.
pub type MatchedRule<'a> = ((usize, usize, usize), &'a Rule);

/// Model of a matched-rule list: specificity triples over `int`, rules
/// by value.
pub open spec fn spec_matched_view(s: Seq<MatchedRule>) -> Seq<((int, int, int), Rule)> {
    s.map_values(|pr: MatchedRule| (spec_key_of(pr.0), *pr.1))
}

/// If the rule matches the element, the rule paired with the matched
/// specificity; otherwise nothing.
fn match_rule<'a>(elem: &ElementData, rule: &'a Rule) -> (r: Option<MatchedRule<'a>>)
    ensures
        match r {
            Some(pr) => {
                &&& spec_rule_matches(*elem, *rule)
                &&& pr.1 == rule
                &&& spec_key_of(pr.0) == spec_rule_key(*elem, *rule)
            },
            None => !spec_rule_matches(*elem, *rule),
        },
{
    let n = rule.selectors.len();
    let mut i: usize = 0;
    while i < n
        invariant
            n == rule.selectors@.len(),
            0 <= i <= n,
            spec_first_matching_from(*elem, rule.selectors@, 0) == spec_first_matching_from(
                *elem,
                rule.selectors@,
                i as int,
            ),
        decreases n - i,
    {
        let sel = &rule.selectors[i];
        if matches(elem, sel) {
            return Some((sel.specificity(), rule));
        }
        i = i + 1;
    }
    None
}

/// The matched rules of `rules` from index `i` on, in stylesheet order.
pub open spec fn spec_matching_rules_from(e: ElementData, rules: Seq<Rule>, i: int) -> Seq<
    ((int, int, int), Rule),
>
    decreases rules.len() - i,
{
    if i < 0 || i >= rules.len() {
        Seq::empty()
    } else {
        let rest = spec_matching_rules_from(e, rules, i + 1);
        if spec_rule_matches(e, rules[i]) {
            seq![(spec_rule_key(e, rules[i]), rules[i])] + rest
        } else {
            rest
        }
    }
}

/// All rules of the stylesheet that match `elem`, each with the
/// specificity of its first matching selector, in stylesheet order.
fn matching_rules<'a>(elem: &ElementData, stylesheet: &'a Stylesheet) -> (r: Vec<MatchedRule<'a>>)
    ensures
        spec_matched_view(r@) == spec_matching_rules_from(*elem, stylesheet.rules@, 0),
{
    let mut out: Vec<MatchedRule<'a>> = Vec::new();
    let n = stylesheet.rules.len();
    let mut i: usize = 0;
    while i < n
        invariant
            n == stylesheet.rules@.len(),
            0 <= i <= n,
            spec_matching_rules_from(*elem, stylesheet.rules@, 0) == spec_matched_view(out@)
                + spec_matching_rules_from(*elem, stylesheet.rules@, i as int),
        decreases n - i,
    {
        let ghost prefix = spec_matched_view(out@);
        match match_rule(elem, &stylesheet.rules[i]) {
            Some(pr) => {
                out.push(pr);
                proof {
                    assert(spec_matched_view(out@) =~= prefix + seq![
                        (
                            spec_rule_key(*elem, stylesheet.rules@[i as int]),
                            stylesheet.rules@[i as int],
                        ),
                    ]);
                    assert(spec_matched_view(out@) + spec_matching_rules_from(
                        *elem,
                        stylesheet.rules@,
                        i + 1,
                    ) =~= spec_matching_rules_from(*elem, stylesheet.rules@, 0));
                }
            },
            None => {},
        }
        i = i + 1;
    }
    out
}

// ---------------------------------------------------------------------------
// Stable sort by specificity
// ---------------------------------------------------------------------------

/// Inserts `x` after every element whose key is less than or equal to
/// `x`'s key; used as the step of a stable insertion sort.
pub open spec fn spec_insert_sorted(l: Seq<((int, int, int), Rule)>, x: ((int, int, int), Rule)) -> Seq<
    ((int, int, int), Rule),
>
    decreases l.len(),
{
    if l.len() == 0 {
        seq![x]
    } else if spec_key_le(l.last().0, x.0) {
        l.push(x)
    } else {
        spec_insert_sorted(l.drop_last(), x).push(l.last())
    }
}

/// Stable sort of a matched-rule list in non-decreasing specificity
/// order; ties keep their stylesheet order.
pub open spec fn spec_sort_matched(l: Seq<((int, int, int), Rule)>) -> Seq<((int, int, int), Rule)>
    decreases l.len(),
{
    if l.len() == 0 {
        Seq::empty()
    } else {
        spec_insert_sorted(spec_sort_matched(l.drop_last()), l.last())
    }
}

/// Characterizes where `spec_insert_sorted` places the new element:
/// at any index whose right neighbours all exceed the new key and whose
/// left neighbour (if any) does not.
proof fn lemma_insert_sorted_at(l: Seq<((int, int, int), Rule)>, x: ((int, int, int), Rule), j: int)
    requires
        0 <= j <= l.len(),
        forall|k: int| j <= k < l.len() ==> !spec_key_le(#[trigger] l[k].0, x.0),
        j > 0 ==> spec_key_le(l[j - 1].0, x.0),
    ensures
        spec_insert_sorted(l, x) =~= l.subrange(0, j) + seq![x] + l.subrange(j, l.len() as int),
    decreases l.len(),
{
    if l.len() == 0 {
    } else if spec_key_le(l.last().0, x.0) {
        assert(j == l.len());
        assert(l.subrange(0, j) =~= l);
    } else {
        assert(j < l.len());
        lemma_insert_sorted_at(l.drop_last(), x, j);
        assert(l.drop_last().subrange(0, j) =~= l.subrange(0, j));
        assert(l.drop_last().subrange(j, l.len() - 1) =~= l.subrange(j, l.len() - 1));
    }
}

/// Sorts a matched-rule list stably by ascending specificity.
fn sort_matched<'a>(input: Vec<MatchedRule<'a>>) -> (r: Vec<MatchedRule<'a>>)
    ensures
        spec_matched_view(r@) == spec_sort_matched(spec_matched_view(input@)),
{
    let mut out: Vec<MatchedRule<'a>> = Vec::new();
    let n = input.len();
    let mut i: usize = 0;
    proof {
        assert(spec_matched_view(input@.subrange(0, 0)) =~= Seq::<((int, int, int), Rule)>::empty());
    }
    while i < n
        invariant
            n == input@.len(),
            0 <= i <= n,
            spec_matched_view(out@) == spec_sort_matched(spec_matched_view(input@.subrange(0, i as int))),
        decreases n - i,
    {
        let x = input[i];
        let mut pos: usize = out.len();
        while pos > 0 && !key_le(out[pos - 1].0, x.0)
            invariant
                0 <= pos <= out@.len(),
                forall|k: int|
                    pos <= k < out@.len() ==> !spec_key_le(
                        spec_key_of(#[trigger] out@[k].0),
                        spec_key_of(x.0),
                    ),
            decreases pos,
        {
            pos = pos - 1;
        }
        let ghost old_out = out@;
        let ghost old_prefix = spec_matched_view(input@.subrange(0, i as int));
        out.insert(pos, x);
        proof {
            lemma_insert_sorted_at(spec_matched_view(old_out), (spec_key_of(x.0), *x.1), pos as int);
            assert(spec_matched_view(old_out).subrange(0, pos as int) =~= spec_matched_view(
                old_out.subrange(0, pos as int),
            ));
            assert(spec_matched_view(old_out).subrange(pos as int, old_out.len() as int)
                =~= spec_matched_view(old_out.subrange(pos as int, old_out.len() as int)));
            assert(spec_matched_view(out@) =~= spec_matched_view(old_out).subrange(0, pos as int)
                + seq![(spec_key_of(x.0), *x.1)] + spec_matched_view(old_out).subrange(
                pos as int,
                old_out.len() as int,
            ));
            let new_prefix = spec_matched_view(input@.subrange(0, i + 1));
            assert(input@.subrange(0, i + 1).drop_last() =~= input@.subrange(0, i as int));
            assert(new_prefix.drop_last() =~= old_prefix);
            assert(new_prefix.last() == (spec_key_of(x.0), *x.1));
            assert(spec_sort_matched(new_prefix) == spec_insert_sorted(
                spec_sort_matched(old_prefix),
                (spec_key_of(x.0), *x.1),
            ));
        }
        i = i + 1;
    }
    proof {
        assert(input@.subrange(0, n as int) =~= input@);
    }
    out
}

// ---------------------------------------------------------------------------
// Applying declarations
// ---------------------------------------------------------------------------

/// Applies the declarations of `ds`, from index `i` on, to the map;
/// later declarations overwrite earlier ones.
pub open spec fn spec_apply_decls(m: Map<Seq<char>, Value>, ds: Seq<Declaration>, i: int) -> Map<
    Seq<char>,
    Value,
>
    decreases ds.len() - i,
{
    if i < 0 || i >= ds.len() {
        m
    } else {
        spec_apply_decls(m.insert(ds[i].name@, ds[i].value), ds, i + 1)
    }
}

/// Applies the declarations of each listed rule, in list order.
pub open spec fn spec_apply_rules(
    m: Map<Seq<char>, Value>,
    prs: Seq<((int, int, int), Rule)>,
    i: int,
) -> Map<Seq<char>, Value>
    decreases prs.len() - i,
{
    if i < 0 || i >= prs.len() {
        m
    } else {
        spec_apply_rules(spec_apply_decls(m, prs[i].1.declarations@, 0), prs, i + 1)
    }
}

/// The specified values of an element: all matching rules applied in
/// non-decreasing specificity order, stably, into one map. The highest
/// specificity wins; among equals the later-declared rule wins.
pub open spec fn spec_specified_values(e: ElementData, sheet: Stylesheet) -> Map<Seq<char>, Value> {
    spec_apply_rules(
        Map::empty(),
        spec_sort_matched(spec_matching_rules_from(e, sheet.rules@, 0)),
        0,
    )
}

/// Computes the specified values of one element under a stylesheet.
pub fn specified_values(elem: &ElementData, stylesheet: &Stylesheet) -> (r: PropertyMap)
    ensures
        r@ == spec_specified_values(*elem, *stylesheet),
{
    let mut values: PropertyMap = StringHashMap::new();
    let rules = matching_rules(elem, stylesheet);
    let sorted = sort_matched(rules);
    let ghost prs = spec_matched_view(sorted@);
    let n = sorted.len();
    let mut i: usize = 0;
    while i < n
        invariant
            n == sorted@.len(),
            0 <= i <= n,
            prs == spec_matched_view(sorted@),
            spec_apply_rules(values@, prs, i as int) == spec_apply_rules(Map::empty(), prs, 0),
        decreases n - i,
    {
        let rule: &Rule = sorted[i].1;
        proof {
            assert(prs[i as int].1 == *sorted@[i as int].1);
        }
        let ghost v0 = values@;
        let nd = rule.declarations.len();
        let mut j: usize = 0;
        while j < nd
            invariant
                nd == rule.declarations@.len(),
                0 <= j <= nd,
                spec_apply_decls(values@, rule.declarations@, j as int) == spec_apply_decls(
                    v0,
                    rule.declarations@,
                    0,
                ),
            decreases nd - j,
        {
            let declaration = &rule.declarations[j];
            values.insert(declaration.name.clone(), declaration.value.clone());
            j = j + 1;
        }
        proof {
            assert(spec_apply_decls(values@, rule.declarations@, nd as int) == values@);
            assert(spec_apply_rules(v0, prs, i as int) == spec_apply_rules(
                spec_apply_decls(v0, prs[i as int].1.declarations@, 0),
                prs,
                i + 1,
            ));
        }
        i = i + 1;
    }
    values
}

// ---------------------------------------------------------------------------
// The specificity-ordering law
// ---------------------------------------------------------------------------

/// Value of the last declaration for `p` among `ds[i..]`, if any.
pub open spec fn spec_last_decl_from(ds: Seq<Declaration>, p: Seq<char>, i: int) -> Option<Value>
    decreases ds.len() - i,
{
    if i < 0 || i >= ds.len() {
        None
    } else {
        let rest = spec_last_decl_from(ds, p, i + 1);
        if rest is Some {
            rest
        } else if ds[i].name@ == p {
            Some(ds[i].value)
        } else {
            None
        }
    }
}

/// Applying a declaration list binds `p` to its last declared value,
/// and leaves `p` alone when the list never declares it.
proof fn lemma_apply_decls_last(
    m: Map<Seq<char>, Value>,
    ds: Seq<Declaration>,
    p: Seq<char>,
    i: int,
)
    requires
        0 <= i <= ds.len(),
    ensures
        spec_apply_decls(m, ds, i).contains_key(p) == (spec_last_decl_from(ds, p, i) is Some
            || m.contains_key(p)),
        spec_last_decl_from(ds, p, i) matches Some(v) ==> spec_apply_decls(m, ds, i)[p] == v,
        spec_last_decl_from(ds, p, i) is None && m.contains_key(p) ==> spec_apply_decls(
            m,
            ds,
            i,
        )[p] == m[p],
    decreases ds.len() - i,
{
    if i < ds.len() {
        lemma_apply_decls_last(m.insert(ds[i].name@, ds[i].value), ds, p, i + 1);
    }
}

/// Whether a rule declares property `p` at all.
pub open spec fn spec_declares(r: Rule, p: Seq<char>) -> bool {
    spec_last_decl_from(r.declarations@, p, 0) is Some
}

/// The entries of a matched-rule list whose rule declares `p`, in
/// order.
pub open spec fn spec_p_decls(prs: Seq<((int, int, int), Rule)>, p: Seq<char>) -> Seq<
    ((int, int, int), Rule),
>
    decreases prs.len(),
{
    if prs.len() == 0 {
        Seq::empty()
    } else {
        spec_p_decls(prs.drop_last(), p) + (if spec_declares(prs.last().1, p) {
            seq![prs.last()]
        } else {
            Seq::empty()
        })
    }
}

proof fn lemma_p_decls_concat(a: Seq<((int, int, int), Rule)>, b: Seq<((int, int, int), Rule)>, p: Seq<char>)
    ensures
        spec_p_decls(a + b, p) =~= spec_p_decls(a, p) + spec_p_decls(b, p),
    decreases b.len(),
{
    if b.len() == 0 {
        assert(a + b =~= a);
        assert(spec_p_decls(a, p) + Seq::<((int, int, int), Rule)>::empty() =~= spec_p_decls(a, p));
    } else {
        assert((a + b).drop_last() =~= a + b.drop_last());
        assert((a + b).last() == b.last());
        lemma_p_decls_concat(a, b.drop_last(), p);
    }
}

/// Non-decreasing specificity order over a matched-rule list.
pub open spec fn spec_sorted_keys(l: Seq<((int, int, int), Rule)>) -> bool {
    forall|a: int, b: int|
        0 <= a < b < l.len() ==> spec_key_le((#[trigger] l[a]).0, (#[trigger] l[b]).0)
}

proof fn lemma_insert_sorted_sorted(l: Seq<((int, int, int), Rule)>, x: ((int, int, int), Rule))
    requires
        spec_sorted_keys(l),
    ensures
        spec_sorted_keys(spec_insert_sorted(l, x)),
        forall|k: int|
            0 <= k < spec_insert_sorted(l, x).len() ==> #[trigger] spec_insert_sorted(l, x)[k] == x
                || l.contains(spec_insert_sorted(l, x)[k]),
    decreases l.len(),
{
    let r = spec_insert_sorted(l, x);
    if l.len() == 0 {
    } else if spec_key_le(l.last().0, x.0) {
        assert forall|a: int, b: int|
            0 <= a < b < r.len() implies spec_key_le((#[trigger] r[a]).0, (#[trigger] r[b]).0) by {
            if b < l.len() {
            } else {
                assert(r[b] == x);
                if a < l.len() - 1 {
                    assert(spec_key_le(l[a].0, l[l.len() - 1].0));
                }
            }
        }
        assert forall|k: int| 0 <= k < r.len() implies #[trigger] r[k] == x || l.contains(r[k]) by {
            if k < l.len() {
                assert(r[k] == l[k]);
            }
        }
    } else {
        let lp = l.drop_last();
        assert(spec_sorted_keys(lp));
        lemma_insert_sorted_sorted(lp, x);
        let rp = spec_insert_sorted(lp, x);
        assert(r == rp.push(l.last()));
        assert forall|k: int| 0 <= k < rp.len() implies spec_key_le(
            (#[trigger] rp[k]).0,
            l.last().0,
        ) by {
            if rp[k] == x {
                assert(!spec_key_le(l.last().0, x.0));
            } else {
                assert(lp.contains(rp[k]));
                let idx = choose|idx: int| 0 <= idx < lp.len() && lp[idx] == rp[k];
                assert(l[idx] == rp[k]);
                if idx < l.len() - 1 {
                    assert(spec_key_le(l[idx].0, l[l.len() - 1].0));
                }
            }
        }
        assert forall|a: int, b: int|
            0 <= a < b < r.len() implies spec_key_le((#[trigger] r[a]).0, (#[trigger] r[b]).0) by {
            if b < rp.len() {
                assert(r[a] == rp[a] && r[b] == rp[b]);
            } else {
                assert(r[b] == l.last());
                assert(r[a] == rp[a]);
            }
        }
        assert forall|k: int| 0 <= k < r.len() implies #[trigger] r[k] == x || l.contains(r[k]) by {
            if k < rp.len() {
                assert(r[k] == rp[k]);
                if rp[k] != x {
                    assert(lp.contains(rp[k]));
                    let idx = choose|idx: int| 0 <= idx < lp.len() && lp[idx] == rp[k];
                    assert(l[idx] == rp[k]);
                }
            } else {
                assert(r[k] == l[l.len() - 1]);
            }
        }
    }
}

proof fn lemma_sort_sorted(l: Seq<((int, int, int), Rule)>)
    ensures
        spec_sorted_keys(spec_sort_matched(l)),
    decreases l.len(),
{
    if l.len() > 0 {
        lemma_sort_sorted(l.drop_last());
        lemma_insert_sorted_sorted(spec_sort_matched(l.drop_last()), l.last());
    }
}

/// Every entry of the `p`-declaring sublist comes from the list.
proof fn lemma_p_decls_subset(l: Seq<((int, int, int), Rule)>, p: Seq<char>)
    ensures
        forall|k: int|
            0 <= k < spec_p_decls(l, p).len() ==> l.contains(#[trigger] spec_p_decls(l, p)[k]),
    decreases l.len(),
{
    if l.len() > 0 {
        lemma_p_decls_subset(l.drop_last(), p);
        let f = spec_p_decls(l, p);
        let fp = spec_p_decls(l.drop_last(), p);
        assert forall|k: int| 0 <= k < f.len() implies l.contains(#[trigger] f[k]) by {
            if k < fp.len() {
                assert(f[k] == fp[k]);
                assert(l.drop_last().contains(fp[k]));
                let idx = choose|idx: int| 0 <= idx < l.drop_last().len() && l.drop_last()[idx]
                    == fp[k];
                assert(l[idx] == fp[k]);
            } else {
                assert(f[k] == l.last());
                assert(l[l.len() - 1] == l.last());
            }
        }
    }
}

/// Filtering to the `p`-declaring entries commutes with the stable
/// insertion step.
proof fn lemma_p_decls_insert(
    l: Seq<((int, int, int), Rule)>,
    x: ((int, int, int), Rule),
    p: Seq<char>,
)
    requires
        spec_sorted_keys(l),
    ensures
        spec_p_decls(spec_insert_sorted(l, x), p) =~= (if spec_declares(x.1, p) {
            spec_insert_sorted(spec_p_decls(l, p), x)
        } else {
            spec_p_decls(l, p)
        }),
    decreases l.len(),
{
    if l.len() == 0 {
        assert(spec_insert_sorted(l, x) =~= seq![x]);
        assert(seq![x].drop_last() =~= Seq::<((int, int, int), Rule)>::empty());
        assert(spec_p_decls(Seq::<((int, int, int), Rule)>::empty(), p) =~= Seq::<
            ((int, int, int), Rule)>::empty());
        if spec_declares(x.1, p) {
            assert(spec_p_decls(seq![x], p) =~= seq![x]);
        } else {
            assert(spec_p_decls(seq![x], p) =~= Seq::<((int, int, int), Rule)>::empty());
        }
    } else if spec_key_le(l.last().0, x.0) {
        let r = l.push(x);
        assert(spec_insert_sorted(l, x) == r);
        assert(r.drop_last() =~= l);
        assert(r.last() == x);
        if spec_declares(x.1, p) {
            let f = spec_p_decls(l, p);
            if f.len() == 0 {
                assert(spec_insert_sorted(f, x) =~= seq![x]);
                assert(spec_p_decls(r, p) =~= f + seq![x]);
                assert(f + seq![x] =~= seq![x]);
            } else {
                lemma_p_decls_subset(l, p);
                assert(l.contains(f.last()));
                let idx = choose|idx: int| 0 <= idx < l.len() && l[idx] == f.last();
                assert(spec_key_le(f.last().0, x.0)) by {
                    if idx < l.len() - 1 {
                        assert(spec_key_le(l[idx].0, l[l.len() - 1].0));
                    }
                }
                assert(spec_insert_sorted(f, x) == f.push(x));
                assert(spec_p_decls(r, p) =~= f + seq![x]);
                assert(f + seq![x] =~= f.push(x));
            }
        } else {
            assert(spec_p_decls(r, p) =~= spec_p_decls(l, p));
        }
    } else {
        let lp = l.drop_last();
        let y = l.last();
        assert(spec_sorted_keys(lp));
        lemma_p_decls_insert(lp, x, p);
        let rp = spec_insert_sorted(lp, x);
        let r = rp.push(y);
        assert(spec_insert_sorted(l, x) == r);
        assert(r.drop_last() =~= rp);
        assert(r.last() == y);
        let fl = spec_p_decls(l, p);
        let flp = spec_p_decls(lp, p);
        if spec_declares(x.1, p) {
            if spec_declares(y.1, p) {
                assert(fl =~= flp.push(y));
                assert(fl.len() > 0 && fl.last() == y && fl.drop_last() =~= flp);
                assert(!spec_key_le(y.0, x.0));
                assert(spec_insert_sorted(fl, x) == spec_insert_sorted(fl.drop_last(), x).push(y));
                assert(spec_insert_sorted(fl.drop_last(), x) =~= spec_insert_sorted(flp, x));
                assert(spec_p_decls(r, p) =~= spec_p_decls(rp, p) + seq![y]);
                assert(spec_insert_sorted(flp, x) + seq![y] =~= spec_insert_sorted(flp, x).push(y));
            } else {
                assert(fl =~= flp);
                assert(spec_p_decls(r, p) =~= spec_p_decls(rp, p));
            }
        } else {
            if spec_declares(y.1, p) {
                assert(fl =~= flp.push(y));
                assert(spec_p_decls(r, p) =~= spec_p_decls(rp, p) + seq![y]);
                assert(flp + seq![y] =~= flp.push(y));
            } else {
                assert(fl =~= flp);
                assert(spec_p_decls(r, p) =~= spec_p_decls(rp, p));
            }
        }
    }
}

/// Filtering to the `p`-declaring entries commutes with the stable
/// sort.
proof fn lemma_sort_p_decls(l: Seq<((int, int, int), Rule)>, p: Seq<char>)
    ensures
        spec_p_decls(spec_sort_matched(l), p) =~= spec_sort_matched(spec_p_decls(l, p)),
    decreases l.len(),
{
    if l.len() > 0 {
        let lp = l.drop_last();
        let y = l.last();
        lemma_sort_p_decls(lp, p);
        lemma_sort_sorted(lp);
        lemma_p_decls_insert(spec_sort_matched(lp), y, p);
        let fl = spec_p_decls(l, p);
        let flp = spec_p_decls(lp, p);
        if spec_declares(y.1, p) {
            assert(fl =~= flp.push(y));
            assert(fl.len() > 0 && fl.last() == y && fl.drop_last() =~= flp);
            assert(spec_sort_matched(fl) == spec_insert_sorted(spec_sort_matched(flp), y));
        } else {
            assert(fl =~= flp);
        }
    }
}

/// The rule, with its key, whose declaration of `p` the remaining
/// applications keep: the last `p`-declaring entry of `prs[i..]`.
pub open spec fn spec_last_p_from(
    prs: Seq<((int, int, int), Rule)>,
    p: Seq<char>,
    i: int,
) -> Option<((int, int, int), Rule)>
    decreases prs.len() - i,
{
    if i < 0 || i >= prs.len() {
        None
    } else {
        let rest = spec_last_p_from(prs, p, i + 1);
        if rest is Some {
            rest
        } else if spec_declares(prs[i].1, p) {
            Some(prs[i])
        } else {
            None
        }
    }
}

/// Applying the rules of a matched list binds `p` to the last
/// declaration of `p` of the last `p`-declaring rule.
proof fn lemma_apply_rules_last(
    m: Map<Seq<char>, Value>,
    prs: Seq<((int, int, int), Rule)>,
    p: Seq<char>,
    i: int,
)
    requires
        0 <= i <= prs.len(),
    ensures
        spec_apply_rules(m, prs, i).contains_key(p) == (spec_last_p_from(prs, p, i) is Some
            || m.contains_key(p)),
        spec_last_p_from(prs, p, i) matches Some(pr) ==> spec_apply_rules(m, prs, i)[p]
            == spec_last_decl_from(pr.1.declarations@, p, 0)->Some_0,
        spec_last_p_from(prs, p, i) is None && m.contains_key(p) ==> spec_apply_rules(
            m,
            prs,
            i,
        )[p] == m[p],
    decreases prs.len() - i,
{
    if i < prs.len() {
        let m2 = spec_apply_decls(m, prs[i].1.declarations@, 0);
        lemma_apply_decls_last(m, prs[i].1.declarations@, p, 0);
        lemma_apply_rules_last(m2, prs, p, i + 1);
    }
}

proof fn lemma_last_p_from_push(
    prs: Seq<((int, int, int), Rule)>,
    y: ((int, int, int), Rule),
    p: Seq<char>,
    i: int,
)
    requires
        0 <= i <= prs.len(),
    ensures
        spec_last_p_from(prs.push(y), p, i) == (if spec_declares(y.1, p) {
            Some(y)
        } else {
            spec_last_p_from(prs, p, i)
        }),
    decreases prs.len() - i,
{
    if i == prs.len() {
        assert(prs.push(y)[i] == y);
        assert(spec_last_p_from(prs.push(y), p, i + 1) is None);
    } else {
        assert(prs.push(y)[i] == prs[i]);
        lemma_last_p_from_push(prs, y, p, i + 1);
    }
}

/// The winning entry is the last element of the `p`-declaring sublist.
proof fn lemma_last_p_is_p_decls_last(prs: Seq<((int, int, int), Rule)>, p: Seq<char>)
    ensures
        spec_last_p_from(prs, p, 0) == (if spec_p_decls(prs, p).len() > 0 {
            Some(spec_p_decls(prs, p).last())
        } else {
            Option::<((int, int, int), Rule)>::None
        }),
    decreases prs.len(),
{
    if prs.len() > 0 {
        let m = prs.drop_last();
        let y = prs.last();
        assert(prs =~= m.push(y));
        lemma_last_p_from_push(m, y, p, 0);
        lemma_last_p_is_p_decls_last(m, p);
        if spec_declares(y.1, p) {
            assert(spec_p_decls(prs, p) =~= spec_p_decls(m, p).push(y));
        } else {
            assert(spec_p_decls(prs, p) =~= spec_p_decls(m, p));
        }
    }
}

/// Among the matched rules, only indices `i` and `j` declare `p`, so
/// the `p`-declaring entries of the matched list are exactly their two
/// pairs, in stylesheet order.
proof fn lemma_matched_p_decls(
    elem: ElementData,
    rules: Seq<Rule>,
    p: Seq<char>,
    i: int,
    j: int,
    t: int,
)
    requires
        0 <= i < j < rules.len(),
        0 <= t <= rules.len(),
        spec_rule_matches(elem, rules[i]),
        spec_rule_matches(elem, rules[j]),
        spec_declares(rules[i], p),
        spec_declares(rules[j], p),
        forall|k: int|
            0 <= k < rules.len() && k != i && k != j && spec_rule_matches(
                elem,
                #[trigger] rules[k],
            ) ==> !spec_declares(rules[k], p),
    ensures
        spec_p_decls(spec_matching_rules_from(elem, rules, t), p) =~= (if t <= i {
            seq![
                (spec_rule_key(elem, rules[i]), rules[i]),
                (spec_rule_key(elem, rules[j]), rules[j]),
            ]
        } else if t <= j {
            seq![(spec_rule_key(elem, rules[j]), rules[j])]
        } else {
            Seq::empty()
        }),
    decreases rules.len() - t,
{
    if t >= rules.len() {
    } else {
        lemma_matched_p_decls(elem, rules, p, i, j, t + 1);
        let rest = spec_matching_rules_from(elem, rules, t + 1);
        if spec_rule_matches(elem, rules[t]) {
            let head = seq![(spec_rule_key(elem, rules[t]), rules[t])];
            assert(spec_matching_rules_from(elem, rules, t) == head + rest);
            lemma_p_decls_concat(head, rest, p);
            assert(head.drop_last() =~= Seq::<((int, int, int), Rule)>::empty());
            assert(spec_p_decls(Seq::<((int, int, int), Rule)>::empty(), p) =~= Seq::<
                ((int, int, int), Rule)>::empty());
            if t == i || t == j {
                assert(spec_p_decls(head, p) =~= head);
            } else {
                assert(!spec_declares(rules[t], p));
                assert(spec_p_decls(head, p) =~= Seq::<((int, int, int), Rule)>::empty());
            }
        } else {
            assert(spec_matching_rules_from(elem, rules, t) == rest);
        }
    }
}

/// Law (specificity ordering): when exactly two of the rules that
/// match an element declare property `p`, the one whose matched
/// selector has the strictly higher (id, class, tag) triple wins,
/// regardless of declaration order; when the triples are equal, the
/// later-declared rule wins. Within the winning rule, its last
/// declaration of `p` is the one kept.
pub proof fn lemma_specificity_ordering(
    elem: ElementData,
    sheet: Stylesheet,
    p: Seq<char>,
    i: int,
    j: int,
)
    requires
        0 <= i < j < sheet.rules@.len(),
        spec_rule_matches(elem, sheet.rules@[i]),
        spec_rule_matches(elem, sheet.rules@[j]),
        spec_declares(sheet.rules@[i], p),
        spec_declares(sheet.rules@[j], p),
        forall|k: int|
            0 <= k < sheet.rules@.len() && k != i && k != j && spec_rule_matches(
                elem,
                #[trigger] sheet.rules@[k],
            ) ==> !spec_declares(sheet.rules@[k], p),
    ensures
        spec_specified_values(elem, sheet).contains_key(p),
        spec_specified_values(elem, sheet)[p] == (if !spec_key_le(
            spec_rule_key(elem, sheet.rules@[i]),
            spec_rule_key(elem, sheet.rules@[j]),
        ) {
            spec_last_decl_from(sheet.rules@[i].declarations@, p, 0)->Some_0
        } else {
            spec_last_decl_from(sheet.rules@[j].declarations@, p, 0)->Some_0
        }),
{
    let rules = sheet.rules@;
    let ki = spec_rule_key(elem, rules[i]);
    let kj = spec_rule_key(elem, rules[j]);
    let pi = (ki, rules[i]);
    let pj = (kj, rules[j]);
    let matched = spec_matching_rules_from(elem, rules, 0);
    let sorted = spec_sort_matched(matched);
    lemma_matched_p_decls(elem, rules, p, i, j, 0);
    lemma_sort_p_decls(matched, p);
    let two = seq![pi, pj];
    assert(spec_p_decls(sorted, p) =~= spec_sort_matched(two));
    // Sorting the two pairs puts the lower key first; ties keep their
    // stylesheet order.
    assert(two.drop_last() =~= seq![pi]);
    assert(seq![pi].drop_last() =~= Seq::<((int, int, int), Rule)>::empty());
    assert(spec_sort_matched(Seq::<((int, int, int), Rule)>::empty()) =~= Seq::<
        ((int, int, int), Rule)>::empty());
    assert(spec_insert_sorted(Seq::<((int, int, int), Rule)>::empty(), pi) =~= seq![pi]);
    assert(spec_sort_matched(seq![pi]) =~= seq![pi]);
    assert(spec_sort_matched(two) == spec_insert_sorted(seq![pi], pj));
    let winner = if spec_key_le(ki, kj) {
        pj
    } else {
        pi
    };
    if spec_key_le(ki, kj) {
        assert(spec_insert_sorted(seq![pi], pj) =~= seq![pi, pj]);
    } else {
        assert(spec_insert_sorted(Seq::<((int, int, int), Rule)>::empty(), pj) =~= seq![pj]);
        assert(spec_insert_sorted(seq![pi], pj) =~= seq![pj, pi]);
    }
    assert(spec_p_decls(sorted, p).len() == 2);
    assert(spec_p_decls(sorted, p).last() == winner);
    lemma_last_p_is_p_decls_last(sorted, p);
    assert(spec_last_p_from(sorted, p, 0) == Some(winner));
    lemma_apply_rules_last(Map::empty(), sorted, p, 0);
}

/// Among `p`-declaring matched entries, the one the cascade keeps:
/// the entry with the lexicographically greatest specificity, a later
/// entry beating an equal one.
pub open spec fn spec_winner(prs: Seq<((int, int, int), Rule)>) -> Option<((int, int, int), Rule)>
    decreases prs.len(),
{
    if prs.len() == 0 {
        None
    } else {
        match spec_winner(prs.drop_last()) {
            None => Some(prs.last()),
            Some(w) => if spec_key_le(w.0, prs.last().0) {
                Some(prs.last())
            } else {
                Some(w)
            },
        }
    }
}

proof fn lemma_insert_sorted_len(l: Seq<((int, int, int), Rule)>, x: ((int, int, int), Rule))
    ensures
        spec_insert_sorted(l, x).len() == l.len() + 1,
    decreases l.len(),
{
    if l.len() == 0 {
    } else if spec_key_le(l.last().0, x.0) {
    } else {
        lemma_insert_sorted_len(l.drop_last(), x);
    }
}

/// The last element of the stable sort is the winner.
proof fn lemma_sort_last_winner(l: Seq<((int, int, int), Rule)>)
    ensures
        spec_sort_matched(l).len() == l.len(),
        l.len() > 0 ==> spec_sort_matched(l).last() == spec_winner(l)->Some_0,
    decreases l.len(),
{
    if l.len() > 0 {
        let lp = l.drop_last();
        let x = l.last();
        lemma_sort_last_winner(lp);
        let sp = spec_sort_matched(lp);
        lemma_insert_sorted_len(sp, x);
        if sp.len() == 0 {
            assert(spec_insert_sorted(sp, x) =~= seq![x]);
        } else if spec_key_le(sp.last().0, x.0) {
            assert(spec_insert_sorted(sp, x) == sp.push(x));
            assert(spec_key_le(spec_winner(lp)->Some_0.0, x.0));
        } else {
            assert(spec_insert_sorted(sp, x) == spec_insert_sorted(sp.drop_last(), x).push(
                sp.last(),
            ));
            assert(!spec_key_le(spec_winner(lp)->Some_0.0, x.0));
        }
    }
}

/// Every entry of the `p`-declaring sublist declares `p`.
proof fn lemma_p_decls_declare(l: Seq<((int, int, int), Rule)>, p: Seq<char>)
    ensures
        forall|k: int|
            0 <= k < spec_p_decls(l, p).len() ==> spec_declares(
                (#[trigger] spec_p_decls(l, p)[k]).1,
                p,
            ),
    decreases l.len(),
{
    if l.len() > 0 {
        lemma_p_decls_declare(l.drop_last(), p);
        let f = spec_p_decls(l, p);
        let fp = spec_p_decls(l.drop_last(), p);
        assert forall|k: int| 0 <= k < f.len() implies spec_declares((#[trigger] f[k]).1, p) by {
            if k < fp.len() {
                assert(f[k] == fp[k]);
            } else {
                assert(f[k] == l.last());
            }
        }
    }
}

/// The winner is one of the entries.
proof fn lemma_winner_mem(prs: Seq<((int, int, int), Rule)>)
    requires
        prs.len() > 0,
    ensures
        prs.contains(spec_winner(prs)->Some_0),
    decreases prs.len(),
{
    let lp = prs.drop_last();
    if spec_winner(prs) == Some(prs.last()) {
        assert(prs[prs.len() - 1] == prs.last());
    } else {
        lemma_winner_mem(lp);
        let idx = choose|idx: int| 0 <= idx < lp.len() && lp[idx] == spec_winner(lp)->Some_0;
        assert(prs[idx] == spec_winner(lp)->Some_0);
    }
}

/// Law (cascade winner, general form): for every element, stylesheet,
/// and property `p`, the cascade binds `p` iff some matching rule
/// declares it; and then it keeps the last declaration of `p` of the
/// winning rule — the `p`-declaring matching rule whose matched
/// selector has the lexicographically greatest (id, class, tag)
/// specificity, a rule later in the stylesheet beating one of equal
/// specificity.
pub proof fn lemma_cascade_winner(elem: ElementData, sheet: Stylesheet, p: Seq<char>)
    ensures
        ({
            let declarers = spec_p_decls(spec_matching_rules_from(elem, sheet.rules@, 0), p);
            &&& spec_specified_values(elem, sheet).contains_key(p) == (declarers.len() > 0)
            &&& declarers.len() > 0 ==> spec_declares(spec_winner(declarers)->Some_0.1, p)
            &&& declarers.len() > 0 ==> spec_specified_values(elem, sheet)[p]
                == spec_last_decl_from(spec_winner(declarers)->Some_0.1.declarations@, p, 0)->Some_0
        }),
{
    let matched = spec_matching_rules_from(elem, sheet.rules@, 0);
    let sorted = spec_sort_matched(matched);
    let declarers = spec_p_decls(matched, p);
    lemma_sort_p_decls(matched, p);
    assert(spec_p_decls(sorted, p) =~= spec_sort_matched(declarers));
    lemma_sort_last_winner(declarers);
    lemma_last_p_is_p_decls_last(sorted, p);
    lemma_apply_rules_last(Map::empty(), sorted, p, 0);
    if declarers.len() > 0 {
        assert(spec_last_p_from(sorted, p, 0) == Some(spec_winner(declarers)->Some_0));
        lemma_winner_mem(declarers);
        lemma_p_decls_declare(matched, p);
        let idx = choose|idx: int|
            0 <= idx < declarers.len() && declarers[idx] == spec_winner(declarers)->Some_0;
        assert(spec_declares(declarers[idx].1, p));
    } else {
        assert(spec_p_decls(sorted, p).len() == 0);
    }
}

// ---------------------------------------------------------------------------
// Styled tree
// ---------------------------------------------------------------------------

/// The property map a node receives: the cascade result for elements,
/// an empty map for text and comment leaves.
pub open spec fn spec_node_values(n: Node, sheet: Stylesheet) -> Map<Seq<char>, Value> {
    match n.node_type {
        NodeType::Element(e) => spec_specified_values(e, sheet),
        _ => Map::empty(),
    }
}

/// The styled tree `s` is the cascade of `sheet` over the document
/// tree `n`: same shape, and every node carries its own specified
/// values. Matching is per node; nothing is inherited.
pub open spec fn spec_styled(s: StyledNode, n: Node, sheet: Stylesheet) -> bool
    decreases n,
{
    &&& *s.node == n
    &&& s.specified_values@ == spec_node_values(n, sheet)
    &&& s.children@.len() == n.children@.len()
    &&& forall|i: int|
        0 <= i < n.children@.len() ==> spec_styled(
            #[trigger] s.children@[i],
            n.children@[i],
            sheet,
        )
}

/// Builds the styled tree for `root`: computes each element's specified
/// values and recurses into every child.
pub fn style_tree<'a>(root: &'a Node, stylesheet: &'a Stylesheet) -> (r: StyledNode<'a>)
    ensures
        spec_styled(r, *root, *stylesheet),
    decreases *root,
{
    let sv: PropertyMap = match &root.node_type {
        NodeType::Element(ref elem) => specified_values(elem, stylesheet),
        NodeType::Text(_) => StringHashMap::new(),
        NodeType::Comment(_) => StringHashMap::new(),
    };
    let mut children: Vec<StyledNode<'a>> = Vec::new();
    let n = root.children.len();
    let mut i: usize = 0;
    while i < n
        invariant
            n == root.children@.len(),
            0 <= i <= n,
            children@.len() == i,
            forall|k: int|
                0 <= k < i ==> spec_styled(
                    #[trigger] children@[k],
                    root.children@[k],
                    *stylesheet,
                ),
        decreases n - i,
    {
        children.push(style_tree(&root.children[i], stylesheet));
        i = i + 1;
    }
    StyledNode::new(root, sv, children)
}

/// Display value carried by a property map: the `display` keyword when
/// present (`none` suppresses the box, `block` makes one), `inline`
/// otherwise.
pub open spec fn spec_display_of(m: Map<Seq<char>, Value>) -> Display {
    if m.contains_key("display"@) {
        match m["display"@] {
            Value::Keyword(s) => if s@ == "block"@ {
                Display::Block
            } else if s@ == "none"@ {
                Display::Hidden
            } else {
                Display::Inline
            },
            _ => Display::Inline,
        }
    } else {
        Display::Inline
    }
}

/// First present value among `name` and `fallback`, else the default.
pub open spec fn spec_lookup_of(
    m: Map<Seq<char>, Value>,
    name: Seq<char>,
    fallback: Seq<char>,
    default: Value,
) -> Value {
    if m.contains_key(name) {
        m[name]
    } else if m.contains_key(fallback) {
        m[fallback]
    } else {
        default
    }
}

impl<'a> StyledNode<'a> {
    pub fn new(node: &'a Node, specified_values: PropertyMap, children: Vec<StyledNode<'a>>) -> (r:
        StyledNode<'a>)
        ensures
            r.node == node,
            r.specified_values == specified_values,
            r.children == children,
    {
        StyledNode { node, specified_values, children }
    }

    /// The specified value of a property, if any.
    pub fn value(&self, name: &str) -> (r: Option<&Value>)
        ensures
            match r {
                Some(v) => self.specified_values@.contains_key(name@) && *v
                    == self.specified_values@[name@],
                None => !self.specified_values@.contains_key(name@),
            },
    {
        self.specified_values.get(name)
    }

    /// The node's display mode, defaulting to inline.
    pub fn display(&self) -> (d: Display)
        ensures
            d == spec_display_of(self.specified_values@),
    {
        match self.value("display") {
            Some(Value::Keyword(s)) => {
                if str_eq(s.as_str(), "block") {
                    Display::Block
                } else if str_eq(s.as_str(), "none") {
                    Display::Hidden
                } else {
                    Display::Inline
                }
            },
            _ => Display::Inline,
        }
    }

    /// The first present value among `name` and `fallback_name`, else a
    /// copy of `default`.
    pub fn lookup(&self, name: &str, fallback_name: &str, default: &Value) -> (v: Value)
        ensures
            v == spec_lookup_of(self.specified_values@, name@, fallback_name@, *default),
    {
        match self.value(name) {
            Some(v) => v.clone(),
            None => match self.value(fallback_name) {
                Some(v) => v.clone(),
                None => default.clone(),
            },
        }
    }
}

/// Entry point of the cascade stage.
pub struct StyleEngine;

impl StyleEngine {
    pub fn new() -> (e: StyleEngine) {
        StyleEngine
    }

    /// Resolves the stylesheet over the document tree.
    pub fn apply_styles<'a>(&self, root: &'a Node, stylesheet: &'a Stylesheet) -> (r: StyledNode<
        'a>)
        ensures
            spec_styled(r, *root, *stylesheet),
    {
        style_tree(root, stylesheet)
    }
}

} // verus!
