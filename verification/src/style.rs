//! The style resolver: matching stylesheet rules against document elements
//! and cascading the matched declarations into a styled tree.

use vstd::prelude::*;

use crate::assoc::{assoc, assoc_insert};
use crate::css::{
    spec_specificity, Declaration, Rule, Selector, SimpleSelector, SimpleSelectorV, Specificity,
    SelectorV, Stylesheet, RuleV, Value, ValueV, DeclarationV,
};
use crate::dom::{spec_classes, ElementData, ElementDataV, Node, NodeTypeV, NodeV};
use crate::layout::Display;
use crate::text::{contains_str, eq_str};

verus! {

/// Map from CSS property names to values, in the order the cascade stored
/// them; lookup takes the first entry with the name.
#[derive(PartialEq, Eq, Clone, Debug)]
pub struct PropertyMap {
    entries: Vec<(String, Value)>,
}

impl View for PropertyMap {
    type V = Seq<(Seq<char>, ValueV)>;

    closed spec fn view(&self) -> Seq<(Seq<char>, ValueV)> {
        self.entries@.map_values(|e: (String, Value)| (e.0@, e.1@))
    }
}

impl PropertyMap {
    /// The empty property map.
    pub fn new() -> (r: Self)
        ensures
            r@ == Seq::<(Seq<char>, ValueV)>::empty(),
    {
        let r = PropertyMap { entries: Vec::new() };
        proof {
            assert(r@ =~= Seq::<(Seq<char>, ValueV)>::empty());
        }
        r
    }

    /// Store `value` under `name`, replacing any earlier value.
    pub fn insert(&mut self, name: String, value: Value)
        ensures
            final(self)@ == assoc_insert(old(self)@, name@, value@),
    {
        let mut i: usize = 0;
        while i < self.entries.len()
            invariant
                self@ == old(self)@,
                i <= old(self)@.len(),
                crate::assoc::assoc_index_from(old(self)@, name@, 0)
                    == crate::assoc::assoc_index_from(old(self)@, name@, i as int),
            decreases old(self)@.len() - i,
        {
            if eq_str(self.entries[i].0.as_str(), name.as_str()) {
                proof {
                    assert(crate::assoc::assoc_index_from(old(self)@, name@, i as int)
                        == i as int);
                }
                self.entries[i] = (name, value);
                proof {
                    assert(self@ =~= old(self)@.update(i as int, (name@, value@)));
                }
                return ;
            }
            i = i + 1;
        }
        self.entries.push((name, value));
        proof {
            assert(self@ =~= assoc_insert(old(self)@, name@, value@));
        }
    }

    /// Look up the value stored under `name`.
    pub fn get(&self, name: &str) -> (r: Option<&Value>)
        ensures
            match r {
                Some(v) => assoc(self@, name@) == Some(v@),
                None => assoc(self@, name@) is None,
            },
    {
        let mut i: usize = 0;
        while i < self.entries.len()
            invariant
                i <= self@.len(),
                crate::assoc::assoc_from(self@, name@, 0) == crate::assoc::assoc_from(
                    self@,
                    name@,
                    i as int,
                ),
            decreases self@.len() - i,
        {
            if eq_str(self.entries[i].0.as_str(), name) {
                return Some(&self.entries[i].1);
            }
            i = i + 1;
        }
        None
    }

    /// The number of stored properties.
    pub fn len(&self) -> (n: usize)
        ensures
            n == self@.len(),
    {
        self.entries.len()
    }

    /// Copy this property map.
    pub fn dup(&self) -> (r: Self)
        ensures
            r@ == self@,
    {
        let mut entries: Vec<(String, Value)> = Vec::new();
        let mut i: usize = 0;
        while i < self.entries.len()
            invariant
                i <= self.entries@.len(),
                entries@.len() == i,
                forall|j: int|
                    0 <= j < i ==> (#[trigger] entries@[j]).0@ == self.entries@[j].0@
                        && entries@[j].1@ == self.entries@[j].1@,
            decreases self.entries@.len() - i,
        {
            entries.push((self.entries[i].0.clone(), self.entries[i].1.dup()));
            i = i + 1;
        }
        let r = PropertyMap { entries };
        proof {
            assert(r@ =~= self@);
        }
        r
    }

    /// Return the value of property `name`, or of property `fallback_name`
    /// if that doesn't exist, or `default` if neither does.
    pub fn lookup(&self, name: &str, fallback_name: &str, default: &Value) -> (r: Value)
        ensures
            r@ == lookup_spec(self@, name@, fallback_name@, default@),
    {
        match self.get(name) {
            Some(v) => v.dup(),
            None => match self.get(fallback_name) {
                Some(v) => v.dup(),
                None => default.dup(),
            },
        }
    }
}

/// The tag-name component of a simple selector is satisfied: the selector
/// names no tag, or names the element's tag.
pub open spec fn tag_matches(e: ElementDataV, sel: SimpleSelectorV) -> bool {
    match sel.tag_name {
        Some(t) => e.tag_name == t,
        None => true,
    }
}

/// The id component of a simple selector is satisfied: the selector names no
/// id, or the element's `id` attribute equals it.
pub open spec fn id_matches(e: ElementDataV, sel: SimpleSelectorV) -> bool {
    match sel.id {
        Some(id) => assoc(e.attributes, "id"@) == Some(id),
        None => true,
    }
}

/// Every class the selector names is among the element's classes.
pub open spec fn classes_match(e: ElementDataV, sel: SimpleSelectorV) -> bool {
    forall|i: int| 0 <= i < sel.class.len() ==> spec_classes(e).contains(#[trigger] sel.class[i])
}

/// A simple selector matches: every component present in the selector is
/// satisfied by the element; absent components match everything.
pub open spec fn simple_selector_matches(e: ElementDataV, sel: SimpleSelectorV) -> bool {
    tag_matches(e, sel) && id_matches(e, sel) && classes_match(e, sel)
}

/// A selector matches an element.
pub open spec fn selector_matches(e: ElementDataV, s: SelectorV) -> bool {
    match s {
        SelectorV::Simple(sel) => simple_selector_matches(e, sel),
    }
}

/// Whether `selector` matches `elem`.
pub fn matches(elem: &ElementData, selector: &Selector) -> (r: bool)
    ensures
        r == selector_matches(elem@, selector@),
{
    match selector {
        Selector::Simple(simple_selector) => matches_simple_selector(elem, simple_selector),
    }
}

/// Whether the simple selector's components are all satisfied by `elem`.
pub fn matches_simple_selector(elem: &ElementData, selector: &SimpleSelector) -> (r: bool)
    ensures
        r == simple_selector_matches(elem@, selector@),
{
    // Check type selector
    match &selector.tag_name {
        Some(name) => {
            if !eq_str(elem.tag_name.as_str(), name.as_str()) {
                return false;
            }
        },
        None => {},
    }
    // Check ID selector
    match &selector.id {
        Some(id) => {
            match elem.id() {
                Some(elem_id) => {
                    if !eq_str(elem_id.as_str(), id.as_str()) {
                        return false;
                    }
                },
                None => {
                    return false;
                },
            }
        },
        None => {},
    }
    // Check class selectors
    let elem_classes = elem.classes();
    let mut i: usize = 0;
    while i < selector.class.len()
        invariant
            tag_matches(elem@, selector@),
            id_matches(elem@, selector@),
            elem_classes@.map_values(|c: String| c@) == spec_classes(elem@),
            i <= selector.class@.len(),
            selector@.class.len() == selector.class@.len(),
            forall|j: int| 0 <= j < i ==> spec_classes(elem@).contains(#[trigger] selector@.class[j]),
        decreases selector.class@.len() - i,
    {
        proof {
            assert(selector@.class[i as int] == selector.class@[i as int]@);
        }
        if !contains_str(&elem_classes, selector.class[i].as_str()) {
            return false;
        }
        i = i + 1;
    }
    // We didn't find any non-matching selector components.
    true
}

/// Index of the first selector in `sels` from `i` on that matches `e`; the
/// length when none does. Selector lists are kept sorted by descending
/// specificity, so the first match is the most specific one.
pub open spec fn first_match_from(e: ElementDataV, sels: Seq<SelectorV>, i: int) -> int
    decreases sels.len() - i,
{
    if i < 0 || i >= sels.len() {
        sels.len() as int
    } else if selector_matches(e, sels[i]) {
        i
    } else {
        first_match_from(e, sels, i + 1)
    }
}

/// A rule matches an element when at least one of its selectors does.
pub open spec fn rule_matches(e: ElementDataV, r: RuleV) -> bool {
    first_match_from(e, r.selectors, 0) < r.selectors.len()
}

/// The specificity a matching rule contributes: that of its first (highest)
/// matching selector.
pub open spec fn rule_specificity(e: ElementDataV, r: RuleV) -> (int, int, int) {
    spec_specificity(r.selectors[first_match_from(e, r.selectors, 0)])
}

/// A rule matches exactly when some selector of it matches.
pub proof fn lemma_rule_matches_iff_exists(e: ElementDataV, r: RuleV)
    ensures
        rule_matches(e, r) <==> exists|i: int|
            0 <= i < r.selectors.len() && selector_matches(e, #[trigger] r.selectors[i]),
{
    lemma_first_match_bounds(e, r.selectors, 0);
    if rule_matches(e, r) {
        let j = first_match_from(e, r.selectors, 0);
        assert(selector_matches(e, r.selectors[j]));
    }
}

/// The first match lies between `i` and the length; everything before it
/// fails to match, and in range it matches.
pub proof fn lemma_first_match_bounds(e: ElementDataV, sels: Seq<SelectorV>, i: int)
    requires
        0 <= i <= sels.len(),
    ensures
        i <= first_match_from(e, sels, i) <= sels.len(),
        forall|j: int| i <= j < first_match_from(e, sels, i) ==> !selector_matches(e, sels[j]),
        first_match_from(e, sels, i) < sels.len() ==> selector_matches(
            e,
            sels[first_match_from(e, sels, i)],
        ),
    decreases sels.len() - i,
{
    if i < sels.len() && !selector_matches(e, sels[i]) {
        lemma_first_match_bounds(e, sels, i + 1);
    }
}

/// If `rule` matches `elem`, return the specificity of its first matching
/// selector. Otherwise return `None`.
pub fn match_rule(elem: &ElementData, rule: &Rule) -> (r: Option<Specificity>)
    ensures
        match r {
            Some(s) => rule_matches(elem@, rule@) && (s.0 as int, s.1 as int, s.2 as int)
                == rule_specificity(elem@, rule@),
            None => !rule_matches(elem@, rule@),
        },
{
    // Find the first (highest-specificity) matching selector.
    let mut i: usize = 0;
    while i < rule.selectors.len()
        invariant
            i <= rule.selectors@.len(),
            rule@.selectors.len() == rule.selectors@.len(),
            first_match_from(elem@, rule@.selectors, 0) == first_match_from(
                elem@,
                rule@.selectors,
                i as int,
            ),
        decreases rule.selectors@.len() - i,
    {
        proof {
            assert(rule@.selectors[i as int] == rule.selectors@[i as int]@);
        }
        if matches(elem, &rule.selectors[i]) {
            return Some(rule.selectors[i].specificity());
        }
        i = i + 1;
    }
    None
}

/// A matched rule: the specificity of its matching selector and the rule's
/// index in the stylesheet.
pub type MatchedRule = (Specificity, usize);

/// The mathematical key of a matched rule.
pub open spec fn mkey(m: MatchedRule) -> ((int, int, int), int) {
    ((m.0.0 as int, m.0.1 as int, m.0.2 as int), m.1 as int)
}

/// The mathematical model of a list of matched rules.
pub open spec fn matched_view(s: Seq<MatchedRule>) -> Seq<((int, int, int), int)> {
    s.map_values(|m: MatchedRule| mkey(m))
}

/// The rules from index `i` on that match `e`, each with its specificity and
/// its index, in stylesheet order.
pub open spec fn matched_from(e: ElementDataV, rules: Seq<RuleV>, i: int) -> Seq<
    ((int, int, int), int),
>
    decreases rules.len() - i,
{
    if i < 0 || i >= rules.len() {
        Seq::empty()
    } else if rule_matches(e, rules[i]) {
        seq![(rule_specificity(e, rules[i]), i)] + matched_from(e, rules, i + 1)
    } else {
        matched_from(e, rules, i + 1)
    }
}

/// Find all rules of the stylesheet that match the given element.
pub fn matching_rules(elem: &ElementData, stylesheet: &Stylesheet) -> (r: Vec<MatchedRule>)
    ensures
        matched_view(r@) == matched_from(elem@, stylesheet@, 0),
{
    let mut r: Vec<MatchedRule> = Vec::new();
    let mut i: usize = 0;
    proof {
        assert(matched_view(r@) + matched_from(elem@, stylesheet@, 0) =~= matched_from(
            elem@,
            stylesheet@,
            0,
        ));
    }
    while i < stylesheet.rules.len()
        invariant
            i <= stylesheet.rules@.len(),
            stylesheet@.len() == stylesheet.rules@.len(),
            forall|k: int| 0 <= k < r@.len() ==> (#[trigger] r@[k]).1 < i,
            matched_view(r@) + matched_from(elem@, stylesheet@, i as int) == matched_from(
                elem@,
                stylesheet@,
                0,
            ),
        decreases stylesheet.rules@.len() - i,
    {
        proof {
            assert(stylesheet@[i as int] == stylesheet.rules@[i as int]@);
        }
        match match_rule(elem, &stylesheet.rules[i]) {
            Some(s) => {
                r.push((s, i));
                proof {
                    assert(matched_view(r@) =~= matched_view(r@.drop_last()).push(
                        mkey(r@.last()),
                    ));
                    assert(matched_view(r@) + matched_from(elem@, stylesheet@, i + 1) =~= matched_view(
                        r@.drop_last(),
                    ) + matched_from(elem@, stylesheet@, i as int));
                }
            },
            None => {},
        }
        i = i + 1;
    }
    r
}

/// Ascending lexicographic order on (specificity, rule index) keys.
pub open spec fn key_le(a: ((int, int, int), int), b: ((int, int, int), int)) -> bool {
    a.0.0 < b.0.0 || (a.0.0 == b.0.0 && (a.0.1 < b.0.1 || (a.0.1 == b.0.1 && (a.0.2 < b.0.2 || (
    a.0.2 == b.0.2 && a.1 <= b.1)))))
}

/// Whether `a` sorts no later than `b`.
fn matched_le(a: &MatchedRule, b: &MatchedRule) -> (r: bool)
    ensures
        r == key_le(mkey(*a), mkey(*b)),
{
    let (sa, ia) = *a;
    let (sb, ib) = *b;
    sa.0 < sb.0 || (sa.0 == sb.0 && (sa.1 < sb.1 || (sa.1 == sb.1 && (sa.2 < sb.2 || (sa.2 == sb.2
        && ia <= ib)))))
}

/// `x` inserted into the ascending sequence `s`, after any equal keys.
pub open spec fn insert_sorted(s: Seq<((int, int, int), int)>, x: ((int, int, int), int)) -> Seq<
    ((int, int, int), int),
>
    decreases s.len(),
{
    if s.len() == 0 {
        seq![x]
    } else if key_le(s.last(), x) {
        s.push(x)
    } else {
        insert_sorted(s.drop_last(), x).push(s.last())
    }
}

/// The ascending stable insertion sort of `s` by (specificity, rule index).
pub open spec fn sort_matched(s: Seq<((int, int, int), int)>) -> Seq<((int, int, int), int)>
    decreases s.len(),
{
    if s.len() == 0 {
        Seq::empty()
    } else {
        insert_sorted(sort_matched(s.drop_last()), s.last())
    }
}

/// Insert `x` into the ascending list `v`, after any equal keys.
fn insert_matched(v: &mut Vec<MatchedRule>, x: MatchedRule)
    ensures
        matched_view(final(v)@) == insert_sorted(matched_view(old(v)@), mkey(x)),
        final(v)@.len() == old(v)@.len() + 1,
        forall|k: int|
            0 <= k < final(v)@.len() ==> final(v)@[k] == x || old(v)@.contains(
                #[trigger] final(v)@[k],
            ),
    decreases old(v)@.len(),
{
    if v.len() == 0 {
        v.push(x);
        proof {
            assert(matched_view(final(v)@) =~= seq![mkey(x)]);
            assert(matched_view(old(v)@).len() == 0);
        }
    } else {
        let last = v[v.len() - 1];
        proof {
            assert(matched_view(old(v)@).last() == mkey(last));
        }
        if matched_le(&last, &x) {
            v.push(x);
            proof {
                assert(matched_view(final(v)@) =~= matched_view(old(v)@).push(mkey(x)));
                assert(forall|k: int|
                    0 <= k < old(v)@.len() ==> old(v)@.contains(#[trigger] old(v)@[k]));
            }
        } else {
            let popped = v.pop();
            let ghost shorter = v@;
            proof {
                assert(matched_view(shorter) =~= matched_view(old(v)@).drop_last());
            }
            insert_matched(v, x);
            v.push(last);
            proof {
                assert(matched_view(final(v)@) =~= insert_sorted(
                    matched_view(shorter),
                    mkey(x),
                ).push(mkey(last)));
                assert forall|k: int| 0 <= k < final(v)@.len() implies final(v)@[k] == x
                    || old(v)@.contains(#[trigger] final(v)@[k]) by {
                    if final(v)@[k] == last {
                        assert(old(v)@[old(v)@.len() - 1] == last);
                    } else if final(v)@[k] != x {
                        let m = final(v)@[k];
                        if k < final(v)@.len() - 1 {
                            assert(shorter.contains(m));
                            let w = choose|w: int| 0 <= w < shorter.len() && shorter[w] == m;
                            assert(old(v)@[w] == m);
                        }
                    }
                }
            }
        }
    }
}

/// Sort the matched rules ascending by (specificity, rule index); equal keys
/// keep their order.
fn sort_matched_rules(input: Vec<MatchedRule>) -> (r: Vec<MatchedRule>)
    ensures
        matched_view(r@) == sort_matched(matched_view(input@)),
        forall|k: int| 0 <= k < r@.len() ==> input@.contains(#[trigger] r@[k]),
{
    let mut r: Vec<MatchedRule> = Vec::new();
    let mut i: usize = 0;
    proof {
        assert(matched_view(r@) =~= sort_matched(matched_view(input@.subrange(0, 0))));
        assert(matched_view(input@.subrange(0, 0)).len() == 0);
    }
    while i < input.len()
        invariant
            i <= input@.len(),
            matched_view(r@) == sort_matched(matched_view(input@.subrange(0, i as int))),
            forall|k: int| 0 <= k < r@.len() ==> input@.contains(#[trigger] r@[k]),
        decreases input@.len() - i,
    {
        let ghost before = r@;
        insert_matched(&mut r, input[i]);
        i = i + 1;
        proof {
            let prefix = matched_view(input@.subrange(0, i as int));
            assert(prefix.drop_last() =~= matched_view(input@.subrange(0, i - 1)));
            assert(prefix.last() == mkey(input@[i - 1]));
            assert(input@.contains(input@[i - 1]));
            assert forall|k: int| 0 <= k < r@.len() implies input@.contains(#[trigger] r@[k]) by {
                if r@[k] != input@[i - 1] {
                    assert(before.contains(r@[k]));
                }
            }
        }
    }
    proof {
        assert(input@.subrange(0, input@.len() as int) =~= input@);
    }
    r
}

/// The map after applying the declarations of one rule from index `i` on,
/// later declarations overwriting earlier ones.
pub open spec fn apply_decls(
    m: Seq<(Seq<char>, ValueV)>,
    decls: Seq<DeclarationV>,
    i: int,
) -> Seq<(Seq<char>, ValueV)>
    decreases decls.len() - i,
{
    if i < 0 || i >= decls.len() {
        m
    } else {
        apply_decls(assoc_insert(m, decls[i].name, decls[i].value), decls, i + 1)
    }
}

/// The map after applying, from position `j` on, the declarations of every
/// matched rule in the given order.
pub open spec fn apply_matched(
    m: Seq<(Seq<char>, ValueV)>,
    rules: Seq<RuleV>,
    matched: Seq<((int, int, int), int)>,
    j: int,
) -> Seq<(Seq<char>, ValueV)>
    decreases matched.len() - j,
{
    if j < 0 || j >= matched.len() {
        m
    } else {
        apply_matched(apply_decls(m, rules[matched[j].1].declarations, 0), rules, matched, j + 1)
    }
}

/// The cascade: the property map an element gets from a stylesheet. The
/// matching rules are applied in ascending (specificity, stylesheet order),
/// later writes overwriting earlier ones, so a higher-specificity rule wins
/// and among equal specificities the later rule wins.
pub open spec fn specified_values_spec(e: ElementDataV, rules: Seq<RuleV>) -> Seq<
    (Seq<char>, ValueV),
> {
    apply_matched(Seq::empty(), rules, sort_matched(matched_from(e, rules, 0)), 0)
}

/// Every entry of the matched-rule list carries an index into the rule list,
/// and that rule matches.
pub proof fn lemma_matched_from_indices(e: ElementDataV, rules: Seq<RuleV>, i: int)
    requires
        0 <= i <= rules.len(),
    ensures
        forall|j: int|
            0 <= j < matched_from(e, rules, i).len() ==> {
                let m = #[trigger] matched_from(e, rules, i)[j];
                i <= m.1 < rules.len() && rule_matches(e, rules[m.1]) && m.0 == rule_specificity(
                    e,
                    rules[m.1],
                )
            },
    decreases rules.len() - i,
{
    if i < rules.len() {
        lemma_matched_from_indices(e, rules, i + 1);
        let cur = matched_from(e, rules, i);
        let rest = matched_from(e, rules, i + 1);
        assert forall|j: int| 0 <= j < cur.len() implies {
            let m = #[trigger] cur[j];
            i <= m.1 < rules.len() && rule_matches(e, rules[m.1]) && m.0 == rule_specificity(
                e,
                rules[m.1],
            )
        } by {
            if rule_matches(e, rules[i]) {
                if j > 0 {
                    assert(cur[j] == rest[j - 1]);
                }
            } else {
                assert(cur[j] == rest[j]);
            }
        }
    }
}

/// Every rule that matches appears in the matched-rule list.
pub proof fn lemma_matched_from_complete(e: ElementDataV, rules: Seq<RuleV>, i: int, t: int)
    requires
        0 <= i <= t < rules.len(),
        rule_matches(e, rules[t]),
    ensures
        exists|j: int|
            0 <= j < matched_from(e, rules, i).len() && (#[trigger] matched_from(e, rules, i)[j]).1
                == t,
    decreases rules.len() - i,
{
    if i == t {
        assert(matched_from(e, rules, i)[0].1 == t);
    } else {
        lemma_matched_from_complete(e, rules, i + 1, t);
        let j = choose|j: int|
            0 <= j < matched_from(e, rules, i + 1).len() && (#[trigger] matched_from(
                e,
                rules,
                i + 1,
            )[j]).1 == t;
        if rule_matches(e, rules[i]) {
            assert(matched_from(e, rules, i)[j + 1].1 == t);
        } else {
            assert(matched_from(e, rules, i)[j].1 == t);
        }
    }
}

/// The matched rules of an element are exactly the rules with a matching
/// selector, each recorded with the specificity of its first matching
/// selector.
pub proof fn lemma_matching_rules_exact(e: ElementDataV, rules: Seq<RuleV>)
    ensures
        forall|j: int|
            0 <= j < matched_from(e, rules, 0).len() ==> {
                let m = #[trigger] matched_from(e, rules, 0)[j];
                0 <= m.1 < rules.len() && (exists|s: int|
                    0 <= s < rules[m.1].selectors.len() && selector_matches(
                        e,
                        #[trigger] rules[m.1].selectors[s],
                    )) && m.0 == rule_specificity(e, rules[m.1])
            },
        forall|t: int|
            #![trigger rules[t]]
            0 <= t < rules.len() && (exists|s: int|
                0 <= s < rules[t].selectors.len() && selector_matches(e, rules[t].selectors[s]))
                ==> exists|j: int|
                0 <= j < matched_from(e, rules, 0).len() && (#[trigger] matched_from(
                    e,
                    rules,
                    0,
                )[j]).1 == t,
{
    lemma_matched_from_indices(e, rules, 0);
    assert forall|j: int| 0 <= j < matched_from(e, rules, 0).len() implies {
        let m = #[trigger] matched_from(e, rules, 0)[j];
        0 <= m.1 < rules.len() && (exists|s: int|
            0 <= s < rules[m.1].selectors.len() && selector_matches(
                e,
                #[trigger] rules[m.1].selectors[s],
            )) && m.0 == rule_specificity(e, rules[m.1])
    } by {
        let m = matched_from(e, rules, 0)[j];
        lemma_rule_matches_iff_exists(e, rules[m.1]);
    }
    assert forall|t: int|
        #![trigger rules[t]]
        0 <= t < rules.len() && (exists|s: int|
            0 <= s < rules[t].selectors.len() && selector_matches(e, rules[t].selectors[s]))
            implies exists|j: int|
        0 <= j < matched_from(e, rules, 0).len() && (#[trigger] matched_from(e, rules, 0)[j]).1
            == t by {
        lemma_rule_matches_iff_exists(e, rules[t]);
        lemma_matched_from_complete(e, rules, 0, t);
    }
}

/// Apply styles to a single element, returning the specified values.
pub fn specified_values(elem: &ElementData, stylesheet: &Stylesheet) -> (values: PropertyMap)
    ensures
        values@ == specified_values_spec(elem@, stylesheet@),
{
    let matched = matching_rules(elem, stylesheet);
    proof {
        lemma_matched_from_indices(elem@, stylesheet@, 0);
        assert(forall|k: int|
            0 <= k < matched@.len() ==> (#[trigger] matched@[k]).1 < stylesheet.rules@.len()) by {
            assert(forall|k: int|
                0 <= k < matched@.len() ==> matched_view(matched@)[k] == mkey(
                    #[trigger] matched@[k],
                ));
        }
    }
    // Go through the rules from lowest to highest specificity.
    let sorted = sort_matched_rules(matched);
    let ghost sortedv = matched_view(sorted@);
    let mut values = PropertyMap::new();
    proof {
        assert(forall|k: int|
            0 <= k < sorted@.len() ==> (#[trigger] sorted@[k]).1 < stylesheet.rules@.len());
        assert(apply_matched(values@, stylesheet@, sortedv, 0) == specified_values_spec(
            elem@,
            stylesheet@,
        ));
    }
    let mut j: usize = 0;
    while j < sorted.len()
        invariant
            j <= sorted@.len(),
            sortedv == matched_view(sorted@),
            stylesheet@.len() == stylesheet.rules@.len(),
            forall|k: int|
                0 <= k < sorted@.len() ==> (#[trigger] sorted@[k]).1 < stylesheet.rules@.len(),
            apply_matched(values@, stylesheet@, sortedv, j as int) == specified_values_spec(
                elem@,
                stylesheet@,
            ),
        decreases sorted@.len() - j,
    {
        let idx = sorted[j].1;
        proof {
            assert(sortedv[j as int] == mkey(sorted@[j as int]));
            assert(stylesheet@[idx as int] == stylesheet.rules@[idx as int]@);
        }
        let ghost declsv = stylesheet@[idx as int].declarations;
        let rule = &stylesheet.rules[idx];
        let mut d: usize = 0;
        while d < rule.declarations.len()
            invariant
                d <= rule.declarations@.len(),
                declsv == rule@.declarations,
                declsv.len() == rule.declarations@.len(),
                sortedv == matched_view(sorted@),
                j < sorted@.len(),
                sortedv[j as int].1 == idx as int,
                stylesheet@[idx as int].declarations == declsv,
                stylesheet@.len() == stylesheet.rules@.len(),
                apply_matched(
                    apply_decls(values@, declsv, d as int),
                    stylesheet@,
                    sortedv,
                    j + 1,
                ) == specified_values_spec(elem@, stylesheet@),
            decreases rule.declarations@.len() - d,
        {
            proof {
                assert(declsv[d as int] == rule.declarations@[d as int]@);
            }
            let decl = &rule.declarations[d];
            values.insert(decl.name.clone(), decl.value.dup());
            d = d + 1;
        }
        j = j + 1;
    }
    values
}

/// A node of the styled tree: the node's resolved property map and its styled
/// children, mirroring the document's child order.
pub struct StyledNode {
    pub specified_values: PropertyMap,
    pub children: Vec<StyledNode>,
}

/// The mathematical model of a styled node.
pub struct StyledNodeV {
    pub specified_values: Seq<(Seq<char>, ValueV)>,
    pub children: Seq<StyledNodeV>,
}

/// The mathematical model of a styled node: the same tree over sequences.
pub open spec fn styled_node_view(n: StyledNode) -> StyledNodeV
    decreases n,
    via styled_node_view_decreases
{
    StyledNodeV {
        specified_values: n.specified_values@,
        children: Seq::new(
            n.children@.len(),
            |i: int|
                if 0 <= i < n.children@.len() {
                    styled_node_view(n.children@[i])
                } else {
                    arbitrary()
                },
        ),
    }
}

#[via_fn]
proof fn styled_node_view_decreases(n: StyledNode) {
    assert forall|i: int| 0 <= i < n.children@.len() implies decreases_to!(
        n => n.children@[i]
    ) by {
        assert(decreases_to!(n => n.children));
        assert(decreases_to!(n.children => n.children@));
        assert(decreases_to!(n.children@ => n.children@[i]));
    }
}

impl View for StyledNode {
    type V = StyledNodeV;

    open spec fn view(&self) -> StyledNodeV {
        styled_node_view(*self)
    }
}

/// The display mode stored in a property map: the `display` keyword when it
/// is `block` or `none`, inline for anything else or when absent.
pub open spec fn display_of(values: Seq<(Seq<char>, ValueV)>) -> Display {
    match assoc(values, "display"@) {
        Some(v) => match v {
            ValueV::Keyword(k) => if k == "block"@ {
                Display::Block
            } else if k == "none"@ {
                Display::Omitted
            } else {
                Display::Inline
            },
            _ => Display::Inline,
        },
        None => Display::Inline,
    }
}

/// The first value present among the property `name`, the property
/// `fallback_name`, and the given default.
pub open spec fn lookup_spec(
    values: Seq<(Seq<char>, ValueV)>,
    name: Seq<char>,
    fallback_name: Seq<char>,
    default: ValueV,
) -> ValueV {
    match assoc(values, name) {
        Some(v) => v,
        None => match assoc(values, fallback_name) {
            Some(v) => v,
            None => default,
        },
    }
}

impl StyledNode {
    /// Return the specified value of a property if it exists, otherwise `None`.
    pub fn value(&self, name: &str) -> (r: Option<Value>)
        ensures
            match r {
                Some(v) => assoc(self@.specified_values, name@) == Some(v@),
                None => assoc(self@.specified_values, name@) is None,
            },
    {
        match self.specified_values.get(name) {
            Some(v) => Some(v.dup()),
            None => None,
        }
    }

    /// The value of the `display` property (defaults to inline).
    pub fn display(&self) -> (d: Display)
        ensures
            d == display_of(self@.specified_values),
    {
        match self.value("display") {
            Some(v) => match v {
                Value::Keyword(s) => {
                    if eq_str(s.as_str(), "block") {
                        Display::Block
                    } else if eq_str(s.as_str(), "none") {
                        Display::Omitted
                    } else {
                        Display::Inline
                    }
                },
                _ => Display::Inline,
            },
            None => Display::Inline,
        }
    }

    /// Return the specified value of property `name`, or property
    /// `fallback_name` if that doesn't exist, or value `default` if neither
    /// does.
    pub fn lookup(&self, name: &str, fallback_name: &str, default: &Value) -> (r: Value)
        ensures
            r@ == lookup_spec(self@.specified_values, name@, fallback_name@, default@),
    {
        match self.value(name) {
            Some(v) => v,
            None => match self.value(fallback_name) {
                Some(v) => v,
                None => default.dup(),
            },
        }
    }
}

/// The styled tree of a document node: elements get their cascaded property
/// map, text nodes an empty one, and the children mirror the document's
/// child order.
pub open spec fn style_tree_spec(n: NodeV, rules: Seq<RuleV>) -> StyledNodeV
    decreases n,
    via style_tree_spec_decreases
{
    StyledNodeV {
        specified_values: match n.node_type {
            NodeTypeV::Element(e) => specified_values_spec(e, rules),
            NodeTypeV::Text(_) => Seq::empty(),
        },
        children: Seq::new(
            n.children.len(),
            |i: int|
                if 0 <= i < n.children.len() {
                    style_tree_spec(n.children[i], rules)
                } else {
                    arbitrary()
                },
        ),
    }
}

#[via_fn]
proof fn style_tree_spec_decreases(n: NodeV, rules: Seq<RuleV>) {
    assert forall|i: int| 0 <= i < n.children.len() implies decreases_to!(
        n => n.children[i]
    ) by {
        assert(decreases_to!(n => n.children));
        assert(decreases_to!(n.children => n.children[i]));
    }
}

/// Apply a stylesheet to an entire DOM tree, returning a StyledNode tree.
pub fn style_tree(root: &Node, stylesheet: &Stylesheet) -> (r: StyledNode)
    ensures
        r@ == style_tree_spec(root@, stylesheet@),
    decreases *root,
{
    let specified = match &root.node_type {
        crate::dom::NodeType::Element(elem) => specified_values(elem, stylesheet),
        crate::dom::NodeType::Text(_) => PropertyMap::new(),
    };
    let mut children: Vec<StyledNode> = Vec::new();
    let mut i: usize = 0;
    while i < root.children.len()
        invariant
            i <= root.children@.len(),
            children@.len() == i,
            root@.children.len() == root.children@.len(),
            forall|j: int|
                0 <= j < i ==> (#[trigger] children@[j])@ == style_tree_spec(
                    root@.children[j],
                    stylesheet@,
                ),
        decreases root.children@.len() - i,
    {
        proof {
            assert(decreases_to!(*root => root.children));
            assert(decreases_to!(root.children => root.children@));
            assert(decreases_to!(root.children@ => root.children@[i as int]));
            assert(root@.children[i as int] == root.children@[i as int]@);
        }
        let child = style_tree(&root.children[i], stylesheet);
        children.push(child);
        i = i + 1;
    }
    let r = StyledNode { specified_values: specified, children };
    proof {
        assert(r@.children =~= style_tree_spec(root@, stylesheet@).children);
        assert(r@.specified_values == style_tree_spec(root@, stylesheet@).specified_values);
    }
    r
}

} // verus!
