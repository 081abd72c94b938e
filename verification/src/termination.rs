//! When the outer loop of the engine is sure to end.
//!
//! A rule whose pattern is a single symbol renames that symbol, and two such rules
//! can hand a symbol back and forth for ever. A registry is grounded where no rule
//! of that kind reads a symbol that some rule produces. Every reduction then lowers
//! a potential of the working sequence, so the outer loop reaches its fixpoint, and
//! at the fixpoint a further iteration changes nothing at all.

use vstd::prelude::*;
use crate::lexer::Token;
use crate::parser::{
    apply_rule, apply_tier, converges, fixpoint, full_pass, matches_at, reduce_at, settle,
    terminals, verdict, Node, Parser, RuleView, SyntaxError, Work,
};

verus! {

/// Whether some rule of the registry produces `name`.
pub open spec fn is_produced(tiers: Seq<Seq<RuleView>>, name: Seq<char>) -> bool {
    exists|t: int, r: int|
        0 <= t < tiers.len() && 0 <= r < tiers[t].len() && (#[trigger] tiers[t][r]).name == name
}

/// A rule fit for a grounded registry: its pattern is not empty, the registry knows
/// the symbol it produces as produced, and where its pattern is one symbol, no rule
/// produces that symbol.
pub open spec fn rule_grounded(tiers: Seq<Seq<RuleView>>, rule: RuleView) -> bool {
    &&& rule.pattern.len() >= 1
    &&& is_produced(tiers, rule.name)
    &&& rule.pattern.len() == 1 ==> !is_produced(tiers, rule.pattern[0])
}

/// Whether every rule of `part` is fit for the grounded registry `tiers`.
pub open spec fn all_grounded(tiers: Seq<Seq<RuleView>>, part: Seq<Seq<RuleView>>) -> bool {
    forall|t: int, r: int|
        0 <= t < part.len() && 0 <= r < part[t].len() ==> rule_grounded(tiers, #[trigger] part[t][r])
}

/// A grounded registry: no pattern is empty, and no rule with a pattern of one
/// symbol reads a symbol that a rule produces.
pub open spec fn grounded(tiers: Seq<Seq<RuleView>>) -> bool {
    all_grounded(tiers, tiers)
}

/// What a symbol name weighs: a produced one 1, any other 2.
pub open spec fn weight(tiers: Seq<Seq<RuleView>>, name: Seq<char>) -> nat {
    if is_produced(tiers, name) {
        1
    } else {
        2
    }
}

/// The potential of a sequence of symbol names: the sum of their weights.
pub open spec fn potential(tiers: Seq<Seq<RuleView>>, names: Seq<Seq<char>>) -> nat
    decreases names.len(),
{
    if names.len() == 0 {
        0
    } else {
        potential(tiers, names.drop_last()) + weight(tiers, names.last())
    }
}

/// The potential of a sequence is the sum of the potentials of its parts, and every
/// name adds at least 1 to it.
pub proof fn lemma_potential_concat(
    tiers: Seq<Seq<RuleView>>,
    a: Seq<Seq<char>>,
    b: Seq<Seq<char>>,
)
    ensures
        potential(tiers, a + b) == potential(tiers, a) + potential(tiers, b),
        potential(tiers, b) >= b.len(),
    decreases b.len(),
{
    if b.len() == 0 {
        assert(a + b =~= a);
    } else {
        lemma_potential_concat(tiers, a, b.drop_last());
        assert((a + b).drop_last() =~= a + b.drop_last());
        assert((a + b).last() == b.last());
    }
}

/// A reduction by a grounded rule lowers the potential.
pub proof fn lemma_reduce_potential(
    tiers: Seq<Seq<RuleView>>,
    w: Work,
    at: int,
    rule: RuleView,
    line: Seq<char>,
)
    requires
        rule_grounded(tiers, rule),
        matches_at(w.names, at, rule.pattern),
    ensures
        potential(tiers, reduce_at(w, at, rule, line).names) < potential(tiers, w.names),
{
    let end = at + rule.pattern.len();
    let before = w.names.subrange(0, at);
    let span = w.names.subrange(at, end);
    let after = w.names.subrange(end, w.names.len() as int);
    let one = seq![rule.name];
    assert(w.names =~= (before + span) + after);
    assert(reduce_at(w, at, rule, line).names =~= (before + one) + after);
    lemma_potential_concat(tiers, before + span, after);
    lemma_potential_concat(tiers, before, span);
    lemma_potential_concat(tiers, before + one, after);
    lemma_potential_concat(tiers, before, one);
    assert(potential(tiers, one) == 1) by {
        assert(one.drop_last() =~= Seq::<Seq<char>>::empty());
        assert(potential(tiers, one.drop_last()) == 0);
        assert(one.last() == rule.name);
    }
    if rule.pattern.len() == 1 {
        assert(potential(tiers, span) == 2) by {
            assert(span.drop_last() =~= Seq::<Seq<char>>::empty());
            assert(potential(tiers, span.drop_last()) == 0);
            assert(span.last() == rule.pattern[0]);
        }
    }
}

/// One scan of a grounded rule never raises the potential, and leaves it as it is
/// only where the scan changes nothing.
pub proof fn lemma_rule_potential(
    tiers: Seq<Seq<RuleView>>,
    w: Work,
    rule: RuleView,
    line: Seq<char>,
    cursor: int,
)
    requires
        rule_grounded(tiers, rule),
    ensures
        potential(tiers, apply_rule(w, rule, line, cursor).names) <= potential(tiers, w.names),
        potential(tiers, apply_rule(w, rule, line, cursor).names) == potential(tiers, w.names)
            ==> apply_rule(w, rule, line, cursor) == w,
    decreases w.names.len() - cursor,
{
    if rule.pattern.len() == 0 || cursor < 0 || cursor + rule.pattern.len() > w.names.len() {
    } else if matches_at(w.names, cursor, rule.pattern) {
        lemma_reduce_potential(tiers, w, cursor, rule, line);
        lemma_rule_potential(tiers, reduce_at(w, cursor, rule, line), rule, line, cursor + 1);
    } else {
        lemma_rule_potential(tiers, w, rule, line, cursor + 1);
    }
}

/// A tier's pass, all of whose rules are grounded, never raises the potential, and
/// leaves it as it is only where the pass changes nothing.
pub proof fn lemma_tier_potential(
    tiers: Seq<Seq<RuleView>>,
    w: Work,
    rules: Seq<RuleView>,
    line: Seq<char>,
)
    requires
        forall|r: int| 0 <= r < rules.len() ==> rule_grounded(tiers, #[trigger] rules[r]),
    ensures
        potential(tiers, apply_tier(w, rules, line).names) <= potential(tiers, w.names),
        potential(tiers, apply_tier(w, rules, line).names) == potential(tiers, w.names)
            ==> apply_tier(w, rules, line) == w,
    decreases rules.len(),
{
    if rules.len() > 0 {
        let front = rules.drop_last();
        assert forall|r: int| 0 <= r < front.len() implies rule_grounded(tiers, #[trigger] front[r]) by {
            assert(front[r] == rules[r]);
        }
        lemma_tier_potential(tiers, w, front, line);
        assert(rule_grounded(tiers, rules[rules.len() - 1]));
        lemma_rule_potential(tiers, apply_tier(w, front, line), rules.last(), line, 0);
    }
}

/// An outer iteration over grounded rules never raises the potential, and leaves
/// it as it is only where the iteration changes nothing.
pub proof fn lemma_pass_potential(
    tiers: Seq<Seq<RuleView>>,
    w: Work,
    part: Seq<Seq<RuleView>>,
    line: Seq<char>,
)
    requires
        all_grounded(tiers, part),
    ensures
        potential(tiers, full_pass(w, part, line).names) <= potential(tiers, w.names),
        potential(tiers, full_pass(w, part, line).names) == potential(tiers, w.names)
            ==> full_pass(w, part, line) == w,
    decreases part.len(),
{
    if part.len() > 0 {
        let front = part.drop_last();
        let last = part.last();
        assert forall|t: int, r: int| 0 <= t < front.len() && 0 <= r < front[t].len() implies rule_grounded(
            tiers,
            #[trigger] front[t][r],
        ) by {
            assert(front[t][r] == part[t][r]);
        }
        lemma_pass_potential(tiers, w, front, line);
        assert forall|r: int| 0 <= r < last.len() implies rule_grounded(tiers, #[trigger] last[r]) by {
            assert(last[r] == part[part.len() - 1][r]);
        }
        lemma_tier_potential(tiers, full_pass(w, front, line), last, line);
    }
}

/// Under a grounded registry the outer loop reaches its fixpoint, within one pass
/// more than the potential of the sequence it starts from.
pub proof fn lemma_grounded_converges(w: Work, tiers: Seq<Seq<RuleView>>, line: Seq<char>)
    requires
        grounded(tiers),
    ensures
        settle(w, tiers, line, potential(tiers, w.names) + 1) is Some,
        converges(w, tiers, line),
    decreases potential(tiers, w.names),
{
    let next = full_pass(w, tiers, line);
    lemma_pass_potential(tiers, w, tiers, line);
    if next.names != w.names {
        lemma_grounded_converges(next, tiers, line);
        crate::parser::lemma_settle_stable(
            next,
            tiers,
            line,
            potential(tiers, next.names) + 1,
            potential(tiers, w.names),
        );
    }
}

/// Under a grounded registry an outer iteration that leaves the symbol names as
/// they are leaves the nodes as they are too.
pub proof fn lemma_grounded_fixpoint_unchanged(w: Work, tiers: Seq<Seq<RuleView>>, line: Seq<char>)
    requires
        grounded(tiers),
        full_pass(w, tiers, line).names == w.names,
    ensures
        full_pass(w, tiers, line) == w,
{
    lemma_pass_potential(tiers, w, tiers, line);
}

impl Parser {
    /// Whether some rule of the registry produces `name`.
    pub fn produces(&self, name: &String) -> (r: bool)
        ensures
            r == is_produced(self@, name@),
    {
        let mut t: usize = 0;
        while t < self.rules.len()
            invariant
                t <= self.rules.len(),
                forall|i: int, j: int|
                    0 <= i < t && 0 <= j < self@[i].len() ==> (#[trigger] self@[i][j]).name != name@,
            decreases self.rules.len() - t,
        {
            let tier = &self.rules[t];
            assert(self@[t as int] == tier.deep_view());
            let mut r: usize = 0;
            while r < tier.len()
                invariant
                    r <= tier.len(),
                    t < self.rules.len(),
                    self@[t as int] == tier.deep_view(),
                    forall|j: int| 0 <= j < r ==> (#[trigger] self@[t as int][j]).name != name@,
                decreases tier.len() - r,
            {
                assert(self@[t as int][r as int] == tier@[r as int]@);
                if tier[r].name == *name {
                    return true;
                }
                r = r + 1;
            }
            t = t + 1;
        }
        false
    }

    /// Whether the registry is grounded, so that every parse under it reaches its
    /// fixpoint.
    pub fn is_grounded(&self) -> (r: bool)
        ensures
            r == grounded(self@),
    {
        let mut t: usize = 0;
        while t < self.rules.len()
            invariant
                t <= self.rules.len(),
                forall|i: int, j: int|
                    0 <= i < t && 0 <= j < self@[i].len() ==> rule_grounded(
                        self@,
                        #[trigger] self@[i][j],
                    ),
            decreases self.rules.len() - t,
        {
            let tier = &self.rules[t];
            assert(self@[t as int] == tier.deep_view());
            let mut r: usize = 0;
            while r < tier.len()
                invariant
                    r <= tier.len(),
                    t < self.rules.len(),
                    self@[t as int] == tier.deep_view(),
                    forall|j: int|
                        0 <= j < r ==> rule_grounded(self@, #[trigger] self@[t as int][j]),
                decreases tier.len() - r,
            {
                let rule = &tier[r];
                assert(self@[t as int][r as int] == rule@);
                if rule.pattern.len() == 0 {
                    return false;
                }
                if rule.pattern.len() == 1 {
                    assert(rule@.pattern[0] == rule.pattern@[0]@);
                    if self.produces(&rule.pattern[0]) {
                        return false;
                    }
                }
                r = r + 1;
            }
            t = t + 1;
        }
        true
    }

    /// Parses a token stream into its tree where the registry is grounded, and so
    /// the parse is sure to end; `None` where it is not.
    pub fn try_parse(&self, tokens: &Vec<Token>, line: &str) -> (r: Option<
        Result<Node, SyntaxError>,
    >)
        ensures
            r is Some <==> grounded(self@),
            r matches Some(result) ==> {
                &&& converges(terminals(tokens.deep_view()), self@, line@)
                &&& verdict(fixpoint(terminals(tokens.deep_view()), self@, line@).nodes, line@, result)
            },
    {
        if self.is_grounded() {
            proof {
                lemma_grounded_converges(terminals(tokens.deep_view()), self@, line@);
                assert forall|t: int| 0 <= t < self@.len() implies crate::parser::patterns_nonempty(
                    #[trigger] self@[t],
                ) by {
                    assert forall|r: int| 0 <= r < self@[t].len() implies (#[trigger] self@[t][r]).pattern.len()
                        >= 1 by {
                        assert(rule_grounded(self@, self@[t][r]));
                    }
                }
            }
            Some(self.parse(tokens, line))
        } else {
            None
        }
    }
}

} // verus!
