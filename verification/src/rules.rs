//! Rule store: the transliteration rules and the order in which they apply.

use crate::script::{classify, script_index, script_of, Script, SCRIPT_COUNT};
use crate::text::{codepoints, copy_chars, occurs, occurs_at, same_chars};
use vstd::prelude::*;

verus! {

/// One transliteration rule. A rule rewrites `pattern` to `replacement`
/// wherever the pattern stands between its two contexts, for every language
/// (`lcode` is `None`) or for one language only.
pub struct Rule {
    pub pattern: Vec<char>,
    pub lcode: Option<Vec<char>>,
    pub replacement: Vec<char>,
    pub priority: u32,
    pub context_before: Vec<char>,
    pub context_after: Vec<char>,
}

/// What a [`Rule`] stands for.
pub struct RuleView {
    pub pattern: Seq<char>,
    pub lcode: Option<Seq<char>>,
    pub replacement: Seq<char>,
    pub priority: u32,
    pub context_before: Seq<char>,
    pub context_after: Seq<char>,
}

/// What an optional language code stands for.
pub open spec fn code_view(lcode: Option<Vec<char>>) -> Option<Seq<char>> {
    match lcode {
        Some(code) => Some(code@),
        None => None,
    }
}

impl View for Rule {
    type V = RuleView;

    open spec fn view(&self) -> RuleView {
        RuleView {
            pattern: self.pattern@,
            lcode: code_view(self.lcode),
            replacement: self.replacement@,
            priority: self.priority,
            context_before: self.context_before@,
            context_after: self.context_after@,
        }
    }
}

/// What a list of rules stands for.
pub open spec fn rules_view(rules: Seq<Rule>) -> Seq<RuleView> {
    Seq::new(rules.len(), |i: int| rules[i]@)
}

/// Whether a rule of this scope applies when the caller asked for `lcode`:
/// a general rule always does, a language-specific rule only for its own
/// language.
pub open spec fn scope_applies(r: RuleView, lcode: Option<Seq<char>>) -> bool {
    r.lcode is None || r.lcode == lcode
}

/// Whether rule `r` matches in `cps` at position `p`: its pattern is not
/// empty and stands at `p`, its left context ends at `p`, its right context
/// starts where the pattern ends, and its scope applies.
pub open spec fn rule_matches(
    r: RuleView,
    cps: Seq<char>,
    p: int,
    lcode: Option<Seq<char>>,
) -> bool {
    &&& r.pattern.len() > 0
    &&& occurs_at(cps, p, r.pattern)
    &&& occurs_at(cps, p - r.context_before.len(), r.context_before)
    &&& occurs_at(cps, p + r.pattern.len(), r.context_after)
    &&& scope_applies(r, lcode)
}

/// The resolution order between two rules of one store, given by their
/// positions `i` and `j` in it: a language-specific rule comes before a
/// general one; then the longer pattern first; then the higher priority;
/// then the rule declared earlier.
pub open spec fn precedes(rules: Seq<RuleView>, i: int, j: int) -> bool {
    let a = rules[i];
    let b = rules[j];
    if (a.lcode is Some) != (b.lcode is Some) {
        a.lcode is Some
    } else if a.pattern.len() != b.pattern.len() {
        a.pattern.len() > b.pattern.len()
    } else if a.priority != b.priority {
        a.priority > b.priority
    } else {
        i < j
    }
}

/// `order` lists rule positions in resolution order.
pub open spec fn is_ranked(rules: Seq<RuleView>, order: Seq<usize>) -> bool {
    forall|a: int, b: int|
        0 <= a < b < order.len() ==> precedes(rules, #[trigger] order[a] as int, #[trigger] order[b] as int)
}

/// `order` with rule `i` put at its place in resolution order.
pub open spec fn insert_ranked(rules: Seq<RuleView>, order: Seq<usize>, i: usize) -> Seq<usize>
    decreases order.len(),
{
    if order.len() == 0 {
        seq![i]
    } else if precedes(rules, order.last() as int, i as int) {
        order.push(i)
    } else {
        insert_ranked(rules, order.drop_last(), i).push(order.last())
    }
}

/// The first `k` rules of the store, in resolution order.
pub open spec fn ranked_prefix(rules: Seq<RuleView>, k: nat) -> Seq<usize>
    decreases k,
{
    if k == 0 {
        Seq::empty()
    } else {
        insert_ranked(rules, ranked_prefix(rules, (k - 1) as nat), (k - 1) as usize)
    }
}

/// All rules of the store, in resolution order.
pub open spec fn resolution_order(rules: Seq<RuleView>) -> Seq<usize> {
    ranked_prefix(rules, rules.len())
}

/// Of the first `k` entries of `order`, those whose rule matches at `p`.
pub open spec fn matching_prefix(
    rules: Seq<RuleView>,
    order: Seq<usize>,
    k: nat,
    cps: Seq<char>,
    p: int,
    lcode: Option<Seq<char>>,
) -> Seq<usize>
    decreases k,
{
    if k == 0 {
        Seq::empty()
    } else {
        let rest = matching_prefix(rules, order, (k - 1) as nat, cps, p, lcode);
        let i = order[k - 1];
        if rule_matches(rules[i as int], cps, p, lcode) {
            rest.push(i)
        } else {
            rest
        }
    }
}

/// The rules that match in `cps` at position `p` for the language `lcode`,
/// by their positions in the store, in resolution order.
pub open spec fn candidates(
    rules: Seq<RuleView>,
    cps: Seq<char>,
    p: int,
    lcode: Option<Seq<char>>,
) -> Seq<usize> {
    let order = resolution_order(rules);
    matching_prefix(rules, order, order.len(), cps, p, lcode)
}

/// Putting a rule that `order` does not hold at its place keeps the order
/// ranked, adds one entry, and adds no other rule.
proof fn lemma_insert_ranked(rules: Seq<RuleView>, order: Seq<usize>, i: usize)
    requires
        is_ranked(rules, order),
        forall|k: int| 0 <= k < order.len() ==> order[k] != i,
    ensures
        insert_ranked(rules, order, i).len() == order.len() + 1,
        is_ranked(rules, insert_ranked(rules, order, i)),
        forall|k: int|
            0 <= k < order.len() + 1 ==> {
                let x = #[trigger] insert_ranked(rules, order, i)[k];
                x == i || order.contains(x)
            },
        insert_ranked(rules, order, i).contains(i),
        forall|m: int|
            0 <= m < order.len() ==> insert_ranked(rules, order, i).contains(#[trigger] order[m]),
    decreases order.len(),
{
    let r = insert_ranked(rules, order, i);
    if order.len() == 0 {
        assert(r[0] == i);
    } else if precedes(rules, order.last() as int, i as int) {
        assert(r[order.len() as int] == i);
        assert forall|a: int, b: int| 0 <= a < b < r.len() implies precedes(
            rules,
            #[trigger] r[a] as int,
            #[trigger] r[b] as int,
        ) by {
            if b == order.len() {
                if a < order.len() - 1 {
                    assert(precedes(rules, order[a] as int, order[order.len() - 1] as int));
                }
            }
        }
        assert forall|m: int| 0 <= m < order.len() implies r.contains(#[trigger] order[m]) by {
            assert(r[m] == order[m]);
        }
    } else {
        let front = order.drop_last();
        let last = order.last();
        assert forall|a: int, b: int| 0 <= a < b < front.len() implies precedes(
            rules,
            #[trigger] front[a] as int,
            #[trigger] front[b] as int,
        ) by {
            assert(front[a] == order[a] && front[b] == order[b]);
        }
        assert forall|k: int| 0 <= k < front.len() implies front[k] != i by {
            assert(front[k] == order[k]);
        }
        lemma_insert_ranked(rules, front, i);
        let inner = insert_ranked(rules, front, i);
        assert(r == inner.push(last));
        assert(last != i);
        assert forall|k: int| 0 <= k < inner.len() implies precedes(
            rules,
            #[trigger] inner[k] as int,
            last as int,
        ) by {
            let x = inner[k];
            if x != i {
                assert(front.contains(x));
                let m = choose|m: int| 0 <= m < front.len() && front[m] == x;
                assert(order[m] == x);
                assert(precedes(rules, order[m] as int, order[order.len() - 1] as int));
            }
        }
        assert forall|a: int, b: int| 0 <= a < b < r.len() implies precedes(
            rules,
            #[trigger] r[a] as int,
            #[trigger] r[b] as int,
        ) by {
            if b < inner.len() {
                assert(r[a] == inner[a] && r[b] == inner[b]);
            } else {
                assert(r[a] == inner[a]);
            }
        }
        assert forall|k: int| 0 <= k < order.len() + 1 implies {
            let x = #[trigger] r[k];
            x == i || order.contains(x)
        } by {
            let x = r[k];
            if k < inner.len() {
                assert(x == inner[k]);
                if x != i {
                    assert(front.contains(x));
                    let m = choose|m: int| 0 <= m < front.len() && front[m] == x;
                    assert(order[m] == x);
                }
            } else {
                assert(order[order.len() - 1] == x);
            }
        }
        let ki = choose|k: int| 0 <= k < inner.len() && inner[k] == i;
        assert(r[ki] == i);
        assert forall|m: int| 0 <= m < order.len() implies r.contains(#[trigger] order[m]) by {
            if m < front.len() {
                assert(front[m] == order[m]);
                assert(inner.contains(front[m]));
                let k = choose|k: int| 0 <= k < inner.len() && inner[k] == front[m];
                assert(r[k] == order[m]);
            } else {
                assert(r[inner.len() as int] == order[m]);
            }
        }
    }
}

/// The first `k` rules in resolution order are exactly the positions below
/// `k`, each once, and they are ranked.
pub proof fn lemma_ranked_prefix(rules: Seq<RuleView>, k: nat)
    requires
        k <= usize::MAX,
    ensures
        ranked_prefix(rules, k).len() == k,
        is_ranked(rules, ranked_prefix(rules, k)),
        forall|m: int| 0 <= m < k ==> #[trigger] ranked_prefix(rules, k)[m] < k,
        forall|x: usize| x < k ==> #[trigger] ranked_prefix(rules, k).contains(x),
    decreases k,
{
    if k > 0 {
        let before = ranked_prefix(rules, (k - 1) as nat);
        lemma_ranked_prefix(rules, (k - 1) as nat);
        let i = (k - 1) as usize;
        lemma_insert_ranked(rules, before, i);
        let now = ranked_prefix(rules, k);
        assert(now == insert_ranked(rules, before, i));
        assert forall|m: int| 0 <= m < k implies #[trigger] now[m] < k by {
            let x = now[m];
            if x != i {
                assert(before.contains(x));
                let j = choose|j: int| 0 <= j < before.len() && before[j] == x;
                assert(before[j] < k - 1);
            }
        }
        assert forall|x: usize| x < k implies #[trigger] now.contains(x) by {
            if x != i {
                assert(before.contains(x));
                let j = choose|j: int| 0 <= j < before.len() && before[j] == x;
                assert(now.contains(before[j]));
            }
        }
    }
}

/// Where the rule belongs in a ranked order: after every entry that comes
/// before it, in front of the others.
proof fn lemma_insert_position(rules: Seq<RuleView>, order: Seq<usize>, i: usize, pos: int)
    requires
        0 <= pos <= order.len(),
        forall|k: int| pos <= k < order.len() ==> !precedes(rules, #[trigger] order[k] as int, i as int),
        pos > 0 ==> precedes(rules, order[pos - 1] as int, i as int),
    ensures
        insert_ranked(rules, order, i) == order.insert(pos, i),
    decreases order.len(),
{
    if order.len() == 0 {
        assert(seq![i] =~= order.insert(0, i));
    } else if pos == order.len() {
        assert(order.push(i) =~= order.insert(pos, i));
    } else {
        let front = order.drop_last();
        assert(!precedes(rules, order[order.len() - 1] as int, i as int));
        assert forall|k: int| pos <= k < front.len() implies !precedes(
            rules,
            #[trigger] front[k] as int,
            i as int,
        ) by {
            assert(front[k] == order[k]);
        }
        lemma_insert_position(rules, front, i, pos);
        assert(front.insert(pos, i).push(order.last()) =~= order.insert(pos, i));
    }
}

/// What [`matching_prefix`] keeps: only entries of `order` whose rule
/// matches, every such entry, and in the order in which `order` lists them.
proof fn lemma_matching_prefix(
    rules: Seq<RuleView>,
    order: Seq<usize>,
    k: nat,
    cps: Seq<char>,
    p: int,
    lcode: Option<Seq<char>>,
)
    requires
        k <= order.len(),
        is_ranked(rules, order),
    ensures
        forall|j: int|
            0 <= j < matching_prefix(rules, order, k, cps, p, lcode).len() ==> {
                let x = #[trigger] matching_prefix(rules, order, k, cps, p, lcode)[j];
                rule_matches(rules[x as int], cps, p, lcode) && exists|t: int|
                    0 <= t < k && order[t] == x
            },
        forall|t: int|
            0 <= t < k && rule_matches(rules[order[t] as int], cps, p, lcode) ==> matching_prefix(
                rules,
                order,
                k,
                cps,
                p,
                lcode,
            ).contains(#[trigger] order[t]),
        is_ranked(rules, matching_prefix(rules, order, k, cps, p, lcode)),
    decreases k,
{
    if k > 0 {
        let rest = matching_prefix(rules, order, (k - 1) as nat, cps, p, lcode);
        let now = matching_prefix(rules, order, k, cps, p, lcode);
        let i = order[k - 1];
        lemma_matching_prefix(rules, order, (k - 1) as nat, cps, p, lcode);
        if rule_matches(rules[i as int], cps, p, lcode) {
            assert(now == rest.push(i));
            assert forall|j: int| 0 <= j < now.len() implies {
                let x = #[trigger] now[j];
                rule_matches(rules[x as int], cps, p, lcode) && exists|t: int|
                    0 <= t < k && order[t] == x
            } by {
                if j < rest.len() {
                    assert(now[j] == rest[j]);
                    let t = choose|t: int| 0 <= t < k - 1 && order[t] == rest[j];
                    assert(order[t] == now[j]);
                } else {
                    assert(order[k - 1] == now[j]);
                }
            }
            assert forall|t: int|
                0 <= t < k && rule_matches(
                    rules[order[t] as int],
                    cps,
                    p,
                    lcode,
                ) implies now.contains(#[trigger] order[t]) by {
                if t < k - 1 {
                    assert(rest.contains(order[t]));
                    let j = choose|j: int| 0 <= j < rest.len() && rest[j] == order[t];
                    assert(now[j] == order[t]);
                } else {
                    assert(now[rest.len() as int] == order[t]);
                }
            }
            assert forall|a: int, b: int| 0 <= a < b < now.len() implies precedes(
                rules,
                #[trigger] now[a] as int,
                #[trigger] now[b] as int,
            ) by {
                if b < rest.len() {
                    assert(now[a] == rest[a] && now[b] == rest[b]);
                } else {
                    assert(now[a] == rest[a]);
                    let t = choose|t: int| 0 <= t < k - 1 && order[t] == rest[a];
                    assert(precedes(rules, order[t] as int, order[k - 1] as int));
                }
            }
        } else {
            assert(now == rest);
            assert forall|j: int| 0 <= j < now.len() implies {
                let x = #[trigger] now[j];
                rule_matches(rules[x as int], cps, p, lcode) && exists|t: int|
                    0 <= t < k && order[t] == x
            } by {
                let t = choose|t: int| 0 <= t < k - 1 && order[t] == rest[j];
                assert(order[t] == now[j]);
            }
        }
    }
}

/// The candidates at a position are rules of the store that match there,
/// all of them, each listed in resolution order.
pub proof fn lemma_candidates(
    rules: Seq<RuleView>,
    cps: Seq<char>,
    p: int,
    lcode: Option<Seq<char>>,
)
    requires
        rules.len() <= usize::MAX,
    ensures
        forall|j: int|
            0 <= j < candidates(rules, cps, p, lcode).len() ==> {
                let x = #[trigger] candidates(rules, cps, p, lcode)[j];
                x < rules.len() && rule_matches(rules[x as int], cps, p, lcode)
            },
        forall|i: usize|
            i < rules.len() && rule_matches(rules[i as int], cps, p, lcode) ==> #[trigger] candidates(
                rules,
                cps,
                p,
                lcode,
            ).contains(i),
        is_ranked(rules, candidates(rules, cps, p, lcode)),
{
    let order = resolution_order(rules);
    let found = candidates(rules, cps, p, lcode);
    lemma_ranked_prefix(rules, rules.len());
    lemma_matching_prefix(rules, order, order.len(), cps, p, lcode);
    assert forall|j: int| 0 <= j < found.len() implies {
        let x = #[trigger] found[j];
        x < rules.len() && rule_matches(rules[x as int], cps, p, lcode)
    } by {
        let t = choose|t: int| 0 <= t < order.len() && order[t] == found[j];
        assert(order[t] < rules.len());
    }
    assert forall|i: usize|
        i < rules.len() && rule_matches(rules[i as int], cps, p, lcode) implies #[trigger] found.contains(
        i,
    ) by {
        assert(order.contains(i));
        let t = choose|t: int| 0 <= t < order.len() && order[t] == i;
        assert(found.contains(order[t]));
    }
}

impl Rule {
    /// A general rule without contexts.
    pub fn new(pattern: &str, replacement: &str, priority: u32) -> (r: Rule)
        ensures
            r@ == (RuleView {
                pattern: pattern@,
                lcode: None,
                replacement: replacement@,
                priority,
                context_before: Seq::empty(),
                context_after: Seq::empty(),
            }),
    {
        Rule {
            pattern: codepoints(pattern),
            lcode: None,
            replacement: codepoints(replacement),
            priority,
            context_before: Vec::new(),
            context_after: Vec::new(),
        }
    }

    /// The same rule, for the language `lcode` only.
    pub fn for_language(self, lcode: &str) -> (r: Rule)
        ensures
            r@ == (RuleView { lcode: Some(lcode@), ..self@ }),
    {
        Rule {
            pattern: self.pattern,
            lcode: Some(codepoints(lcode)),
            replacement: self.replacement,
            priority: self.priority,
            context_before: self.context_before,
            context_after: self.context_after,
        }
    }

    /// The same rule, matching only between `before` and `after`.
    pub fn with_context(self, before: &str, after: &str) -> (r: Rule)
        ensures
            r@ == (RuleView { context_before: before@, context_after: after@, ..self@ }),
    {
        Rule {
            pattern: self.pattern,
            lcode: self.lcode,
            replacement: self.replacement,
            priority: self.priority,
            context_before: codepoints(before),
            context_after: codepoints(after),
        }
    }

    /// A copy of the rule.
    pub fn duplicate(&self) -> (r: Rule)
        ensures
            r@ == self@,
    {
        let lcode = match &self.lcode {
            None => None,
            Some(code) => Some(copy_chars(code)),
        };
        Rule {
            pattern: copy_chars(&self.pattern),
            lcode,
            replacement: copy_chars(&self.replacement),
            priority: self.priority,
            context_before: copy_chars(&self.context_before),
            context_after: copy_chars(&self.context_after),
        }
    }

    /// Whether the rule is for one language only.
    pub fn is_language_specific(&self) -> (b: bool)
        ensures
            b == (self@.lcode is Some),
    {
        self.lcode.is_some()
    }

    /// Whether the rule matches in `cps` at position `p` when the caller
    /// asked for the language `lcode`.
    pub fn matches(&self, cps: &Vec<char>, p: usize, lcode: &Option<Vec<char>>) -> (b: bool)
        ensures
            b == rule_matches(self@, cps@, p as int, code_view(*lcode)),
    {
        if self.pattern.len() == 0 {
            return false;
        }
        if !occurs(cps, p, &self.pattern) {
            return false;
        }
        if self.context_before.len() > p {
            return false;
        }
        if !occurs(cps, p - self.context_before.len(), &self.context_before) {
            return false;
        }
        assert(p + self.pattern.len() <= cps.len());
        if !occurs(cps, p + self.pattern.len(), &self.context_after) {
            return false;
        }
        match &self.lcode {
            None => true,
            Some(own) => match lcode {
                None => false,
                Some(asked) => same_chars(own, asked),
            },
        }
    }
}

/// Tests [`precedes`] for the rules at `i` and `j`.
fn ranks_before(rules: &Vec<Rule>, i: usize, j: usize) -> (b: bool)
    requires
        i < rules.len(),
        j < rules.len(),
    ensures
        b == precedes(rules_view(rules@), i as int, j as int),
{
    let a = &rules[i];
    let b = &rules[j];
    assert(rules_view(rules@)[i as int] == a@);
    assert(rules_view(rules@)[j as int] == b@);
    if a.lcode.is_some() != b.lcode.is_some() {
        a.lcode.is_some()
    } else if a.pattern.len() != b.pattern.len() {
        a.pattern.len() > b.pattern.len()
    } else if a.priority != b.priority {
        a.priority > b.priority
    } else {
        i < j
    }
}

/// The script under which a store files a rule: that of the first
/// codepoint of its pattern.
pub open spec fn rule_script(r: RuleView) -> Script {
    if r.pattern.len() > 0 {
        script_of(r.pattern[0])
    } else {
        Script::Unknown
    }
}

/// Of the first `k` entries of `order`, those whose rule is filed under the
/// script `s`.
pub open spec fn filed_prefix(rules: Seq<RuleView>, order: Seq<usize>, k: nat, s: Script) -> Seq<
    usize,
>
    decreases k,
{
    if k == 0 {
        Seq::empty()
    } else {
        let rest = filed_prefix(rules, order, (k - 1) as nat, s);
        if rule_script(rules[order[k - 1] as int]) == s {
            rest.push(order[k - 1])
        } else {
            rest
        }
    }
}

/// Two scripts with the same index are the same script.
proof fn lemma_script_index(a: Script, b: Script)
    ensures
        script_index(a) < SCRIPT_COUNT,
        script_index(a) == script_index(b) ==> a == b,
{
}

/// Every entry of a shelf is an entry of the order it was filed from.
proof fn lemma_filed_prefix(rules: Seq<RuleView>, order: Seq<usize>, k: nat, s: Script)
    requires
        k <= order.len(),
    ensures
        forall|j: int|
            0 <= j < filed_prefix(rules, order, k, s).len() ==> order.contains(
                #[trigger] filed_prefix(rules, order, k, s)[j],
            ),
    decreases k,
{
    if k > 0 {
        let rest = filed_prefix(rules, order, (k - 1) as nat, s);
        let now = filed_prefix(rules, order, k, s);
        lemma_filed_prefix(rules, order, (k - 1) as nat, s);
        assert forall|j: int| 0 <= j < now.len() implies order.contains(#[trigger] now[j]) by {
            if j < rest.len() {
                assert(now[j] == rest[j]);
            } else {
                assert(order[k - 1] == now[j]);
            }
        }
    }
}

/// The matches among the first `k` entries of a list depend on those
/// entries only.
proof fn lemma_matching_reads_prefix(
    rules: Seq<RuleView>,
    a: Seq<usize>,
    b: Seq<usize>,
    k: nat,
    cps: Seq<char>,
    p: int,
    lcode: Option<Seq<char>>,
)
    requires
        k <= a.len(),
        k <= b.len(),
        forall|i: int| 0 <= i < k ==> a[i] == b[i],
    ensures
        matching_prefix(rules, a, k, cps, p, lcode) == matching_prefix(rules, b, k, cps, p, lcode),
    decreases k,
{
    if k > 0 {
        lemma_matching_reads_prefix(rules, a, b, (k - 1) as nat, cps, p, lcode);
    }
}

/// The rules that match at a position are all filed under the script of
/// the codepoint at that position: the shelf of that script holds the same
/// matches as the whole order, in the same order.
proof fn lemma_shelf(
    rules: Seq<RuleView>,
    order: Seq<usize>,
    k: nat,
    cps: Seq<char>,
    p: int,
    lcode: Option<Seq<char>>,
)
    requires
        k <= order.len(),
        0 <= p < cps.len(),
    ensures
        ({
            let shelf = filed_prefix(rules, order, k, script_of(cps[p]));
            matching_prefix(rules, shelf, shelf.len(), cps, p, lcode) == matching_prefix(
                rules,
                order,
                k,
                cps,
                p,
                lcode,
            )
        }),
    decreases k,
{
    if k > 0 {
        let s = script_of(cps[p]);
        let x = order[k - 1];
        let before = filed_prefix(rules, order, (k - 1) as nat, s);
        let shelf = filed_prefix(rules, order, k, s);
        lemma_shelf(rules, order, (k - 1) as nat, cps, p, lcode);
        if rule_script(rules[x as int]) == s {
            assert(shelf == before.push(x));
            lemma_matching_reads_prefix(rules, shelf, before, before.len(), cps, p, lcode);
        } else if rule_matches(rules[x as int], cps, p, lcode) {
            let pattern = rules[x as int].pattern;
            assert(cps.subrange(p, p + pattern.len())[0] == cps[p]);
        }
    }
}

/// Past the end of the input no rule matches.
proof fn lemma_nothing_past_end(
    rules: Seq<RuleView>,
    order: Seq<usize>,
    k: nat,
    cps: Seq<char>,
    p: int,
    lcode: Option<Seq<char>>,
)
    requires
        k <= order.len(),
        p >= cps.len(),
    ensures
        matching_prefix(rules, order, k, cps, p, lcode) == Seq::<usize>::empty(),
    decreases k,
{
    if k > 0 {
        lemma_nothing_past_end(rules, order, (k - 1) as nat, cps, p, lcode);
    }
}

/// The script under which a store files the rule.
fn filed_under(rule: &Rule) -> (s: Script)
    ensures
        s == rule_script(rule@),
{
    if rule.pattern.len() > 0 {
        classify(rule.pattern[0])
    } else {
        Script::Unknown
    }
}

/// The entries of `order`, each on the shelf of the script under which its
/// rule is filed.
fn file_rules(rules: &Vec<Rule>, order: &Vec<usize>) -> (shelves: Vec<Vec<usize>>)
    requires
        forall|m: int| 0 <= m < order@.len() ==> #[trigger] order@[m] < rules@.len(),
    ensures
        shelves@.len() == SCRIPT_COUNT,
        forall|s: Script|
            (#[trigger] shelves@[script_index(s) as int])@ == filed_prefix(
                rules_view(rules@),
                order@,
                order@.len(),
                s,
            ),
{
    let ghost view = rules_view(rules@);
    let mut shelves: Vec<Vec<usize>> = Vec::new();
    let mut i: usize = 0;
    while i < SCRIPT_COUNT
        invariant
            i <= SCRIPT_COUNT,
            shelves@.len() == i,
            forall|q: int| 0 <= q < i ==> (#[trigger] shelves@[q])@ == Seq::<usize>::empty(),
        decreases SCRIPT_COUNT - i,
    {
        let shelf: Vec<usize> = Vec::new();
        shelves.push(shelf);
        i += 1;
    }
    assert forall|s: Script| (#[trigger] shelves@[script_index(s) as int])@ == filed_prefix(
        view,
        order@,
        0,
        s,
    ) by {
        lemma_script_index(s, s);
    }
    let mut k: usize = 0;
    while k < order.len()
        invariant
            k <= order.len(),
            view == rules_view(rules@),
            forall|m: int| 0 <= m < order@.len() ==> #[trigger] order@[m] < rules@.len(),
            shelves@.len() == SCRIPT_COUNT,
            forall|s: Script|
                (#[trigger] shelves@[script_index(s) as int])@ == filed_prefix(
                    view,
                    order@,
                    k as nat,
                    s,
                ),
        decreases order.len() - k,
    {
        let x = order[k];
        assert(view[x as int] == rules@[x as int]@);
        let s = filed_under(&rules[x]);
        let ghost before = shelves@;
        shelves[s.index()].push(x);
        assert forall|t: Script| (#[trigger] shelves@[script_index(t) as int])@ == filed_prefix(
            view,
            order@,
            (k + 1) as nat,
            t,
        ) by {
            lemma_script_index(t, s);
            if t != s {
                assert(shelves@[script_index(t) as int] == before[script_index(t) as int]);
            }
        }
        k += 1;
    }
    shelves
}

/// The rules of one engine, in the order in which they were declared. The
/// store keeps the order in which its rules apply and, for each script, the
/// rules whose pattern starts in that script, so that a lookup reads the
/// rules of one script only. A store is never changed once it is built.
pub struct RuleStore {
    rules: Vec<Rule>,
    order: Vec<usize>,
    shelves: Vec<Vec<usize>>,
}

impl View for RuleStore {
    type V = Seq<RuleView>;

    closed spec fn view(&self) -> Seq<RuleView> {
        rules_view(self.rules@)
    }
}

impl Clone for Rule {
    /// A copy of the rule.
    fn clone(&self) -> (copy: Rule)
        ensures
            copy@ == self@,
    {
        self.duplicate()
    }
}

impl Clone for RuleStore {
    /// A store of the same rules.
    fn clone(&self) -> (copy: RuleStore)
        ensures
            copy@ == self@,
    {
        let mut rules: Vec<Rule> = Vec::new();
        let mut i: usize = 0;
        while i < self.rules.len()
            invariant
                i <= self.rules.len(),
                rules@.len() == i,
                forall|j: int| 0 <= j < i ==> (#[trigger] rules@[j])@ == self.rules@[j]@,
            decreases self.rules.len() - i,
        {
            let rule = self.rules[i].duplicate();
            rules.push(rule);
            i += 1;
        }
        assert(rules_view(rules@) =~= rules_view(self.rules@));
        RuleStore::from_rules(rules)
    }
}

impl RuleStore {
    #[verifier::type_invariant]
    /// The store keeps its rules in resolution order and, shelf by shelf,
    /// by script.
    spec fn indexed(self) -> bool {
        &&& self.order@ == resolution_order(rules_view(self.rules@))
        &&& self.shelves@.len() == SCRIPT_COUNT
        &&& forall|s: Script|
            (#[trigger] self.shelves@[script_index(s) as int])@ == filed_prefix(
                rules_view(self.rules@),
                self.order@,
                self.order@.len(),
                s,
            )
    }

    /// A store without rules.
    pub fn new() -> (store: RuleStore)
        ensures
            store@ == Seq::<RuleView>::empty(),
            store@.len() <= usize::MAX,
    {
        RuleStore::from_rules(Vec::new())
    }

    /// A store of the given rules, declared in the order of the list.
    pub fn from_rules(rules: Vec<Rule>) -> (store: RuleStore)
        ensures
            store@ == rules_view(rules@),
            store@.len() <= usize::MAX,
    {
        let n = rules.len();
        let ghost view = rules_view(rules@);
        let mut order: Vec<usize> = Vec::new();
        let mut i: usize = 0;
        while i < n
            invariant
                i <= n,
                n == rules.len(),
                view == rules_view(rules@),
                order@ == ranked_prefix(view, i as nat),
            decreases n - i,
        {
            proof {
                lemma_ranked_prefix(view, i as nat);
            }
            let mut pos: usize = order.len();
            while pos > 0 && !ranks_before(&rules, order[pos - 1], i)
                invariant
                    pos <= order.len(),
                    i < n,
                    n == rules.len(),
                    view == rules_view(rules@),
                    forall|m: int| 0 <= m < order.len() ==> #[trigger] order@[m] < i,
                    forall|k: int|
                        pos <= k < order.len() ==> !precedes(view, #[trigger] order@[k] as int, i as int),
                decreases pos,
            {
                pos -= 1;
            }
            proof {
                lemma_insert_position(view, order@, i, pos as int);
            }
            order.insert(pos, i);
            i += 1;
        }
        proof {
            lemma_ranked_prefix(view, n as nat);
        }
        let shelves = file_rules(&rules, &order);
        RuleStore { rules, order, shelves }
    }

    /// The number of rules.
    pub fn len(&self) -> (n: usize)
        ensures
            n == self@.len(),
            self@.len() <= usize::MAX,
    {
        self.rules.len()
    }

    /// The rule declared at position `i`.
    pub fn rule(&self, i: usize) -> (r: &Rule)
        requires
            i < self@.len(),
        ensures
            r@ == self@[i as int],
    {
        &self.rules[i]
    }

    /// The rules that match in `cps` at position `p` for the language
    /// `lcode`, by their positions in the store, in resolution order. A
    /// language that no rule names leaves the general rules.
    pub fn lookup(&self, cps: &Vec<char>, p: usize, lcode: &Option<Vec<char>>) -> (found: Vec<usize>)
        ensures
            found@ == candidates(self@, cps@, p as int, code_view(*lcode)),
    {
        let mut found: Vec<usize> = Vec::new();
        proof {
            use_type_invariant(self);
            assert(self@.len() == self.rules.len());
            lemma_ranked_prefix(self@, self@.len());
        }
        if p >= cps.len() {
            proof {
                lemma_nothing_past_end(
                    self@,
                    self.order@,
                    self.order@.len(),
                    cps@,
                    p as int,
                    code_view(*lcode),
                );
            }
            return found;
        }
        let script = classify(cps[p]);
        let shelf = &self.shelves[script.index()];
        proof {
            lemma_filed_prefix(self@, self.order@, self.order@.len(), script);
            lemma_shelf(self@, self.order@, self.order@.len(), cps@, p as int, code_view(*lcode));
        }
        let mut k: usize = 0;
        while k < shelf.len()
            invariant
                k <= shelf.len(),
                self@ == rules_view(self.rules@),
                forall|m: int| 0 <= m < self.order.len() ==> #[trigger] self.order@[m] < self.rules.len(),
                forall|j: int| 0 <= j < shelf@.len() ==> self.order@.contains(#[trigger] shelf@[j]),
                found@ == matching_prefix(self@, shelf@, k as nat, cps@, p as int, code_view(*lcode)),
            decreases shelf.len() - k,
        {
            let i = shelf[k];
            assert(self.order@.contains(shelf@[k as int]));
            assert(self@[i as int] == self.rules@[i as int]@);
            if self.rules[i].matches(cps, p, lcode) {
                found.push(i);
            }
            k += 1;
        }
        found
    }
}

} // verus!
