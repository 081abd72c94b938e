use vstd::prelude::*;
use vstd::string::StringExecFns;
use crate::ast::{evaluation, spells, EvalError, Progress};
use crate::lexer::{Token, TokenView};

verus! {

/// An element of the working sequence, and in the end the parse tree: a terminal
/// that wraps one token, or an internal node built by one reduction.
#[derive(Debug)]
pub struct Node {
    /// The semantic action of the node; `TOKEN` for a terminal.
    pub class_name: String,
    /// The nodes the reduction matched, in order; empty for a terminal.
    pub token_values: Vec<Node>,
    /// The symbol names of the matched nodes.
    pub token_names: Vec<String>,
    /// Where in the working sequence the reduction took place.
    pub index: usize,
    /// The source line the node was built for.
    pub line: String,
    /// The token of a terminal.
    pub token: Option<Token>,
}

/// The mathematical value of a [`Node`].
pub struct NodeView {
    pub class_name: Seq<char>,
    pub token_values: Seq<NodeView>,
    pub token_names: Seq<Seq<char>>,
    pub index: int,
    pub line: Seq<char>,
    pub token: Option<TokenView>,
}

impl View for Node {
    type V = NodeView;

    open spec fn view(&self) -> NodeView {
        self.as_view()
    }
}

impl DeepView for Node {
    type V = NodeView;

    open spec fn deep_view(&self) -> NodeView {
        self.view()
    }
}

impl Node {
    /// The view of a node, built from the views of its children.
    pub open spec fn as_view(&self) -> NodeView
        decreases self,
    {
        NodeView {
            class_name: self.class_name@,
            token_values: Seq::new(
                self.token_values@.len(),
                |i: int|
                    if 0 <= i < self.token_values@.len() {
                        self.token_values@[i].as_view()
                    } else {
                        arbitrary()
                    },
            ),
            token_names: self.token_names.deep_view(),
            index: self.index as int,
            line: self.line@,
            token: match self.token {
                Some(t) => Some(t@),
                None => None,
            },
        }
    }

    /// Evaluates the node against the answers given so far, of which `used` are
    /// consumed already. Hands back how far evaluation got and how many answers
    /// are consumed afterwards.
    pub fn eval_from(&self, answers: &Vec<Option<u32>>, used: usize) -> (r: (Progress, usize))
        ensures
            (r.0@, r.1 as nat) == evaluation(self@, answers@, used as nat),
        decreases self, 2nat,
    {
        if spells(&self.class_name, "Num") {
            crate::ast::Num(self, answers, used)
        } else if spells(&self.class_name, "String") {
            (crate::ast::String(self), used)
        } else if spells(&self.class_name, "Div") {
            crate::ast::Div(self, answers, used)
        } else if spells(&self.class_name, "Mul") {
            crate::ast::Mul(self, answers, used)
        } else if spells(&self.class_name, "Add") {
            crate::ast::Add(self, answers, used)
        } else if spells(&self.class_name, "Minus") {
            crate::ast::Minus(self, answers, used)
        } else {
            (Progress::Failed(EvalError::UnknownSymbol), used)
        }
    }

    /// Evaluates the tree as far as `answers` reach.
    ///
    /// `Done` carries the value of the tree and `Failed` the reason there is none.
    /// `Pending` carries the next request: its answer, appended to `answers`, lets
    /// the next call get further.
    pub fn eval(&self, answers: &Vec<Option<u32>>) -> (r: Progress)
        ensures
            r@ == evaluation(self@, answers@, 0).0,
    {
        self.eval_from(answers, 0).0
    }

    /// The children of a node are seen through their own views.
    pub proof fn lemma_children(&self)
        ensures
            self@.token_values == self.token_values.deep_view(),
    {
        assert(self@.token_values =~= self.token_values.deep_view());
    }
}

/// The tag of an evaluation result.
#[derive(Debug, Clone, Copy, PartialEq, Eq, Structural)]
pub enum ValType {
    NULL,
    NUM,
    STRING,
}

/// An evaluation result: a tagged scalar that is absent, numeric or textual.
///
/// A number is held as the bit pattern of its IEEE 754 single-precision encoding.
/// The library hands such patterns on and never looks inside one.
#[derive(Debug)]
pub struct EvalVal {
    pub num: Option<u32>,
    pub string: Option<String>,
    pub valtype: ValType,
}

/// The mathematical value of an [`EvalVal`].
pub struct EvalValView {
    pub num: Option<u32>,
    pub string: Option<Seq<char>>,
    pub valtype: ValType,
}

impl View for EvalVal {
    type V = EvalValView;

    open spec fn view(&self) -> EvalValView {
        EvalValView {
            num: self.num,
            string: match self.string {
                Some(s) => Some(s@),
                None => None,
            },
            valtype: self.valtype,
        }
    }
}

impl Default for EvalVal {
    /// The absent value.
    fn default() -> (r: EvalVal)
        ensures
            r@ == (EvalValView { num: None, string: None, valtype: ValType::NULL }),
    {
        EvalVal { num: None, string: None, valtype: ValType::NULL }
    }
}

impl Clone for EvalVal {
    fn clone(&self) -> (r: EvalVal)
        ensures
            r@ == self@,
    {
        EvalVal {
            num: self.num,
            string: match &self.string {
                Some(s) => Some(s.clone()),
                None => None,
            },
            valtype: self.valtype,
        }
    }
}

/// A production: a run of symbol names, the symbol that replaces a match, and the
/// semantic action of the node that is built.
#[derive(Debug)]
pub struct Rule {
    pub pattern: Vec<String>,
    pub class_name: String,
    pub name: String,
}

/// The mathematical value of a [`Rule`].
pub struct RuleView {
    pub pattern: Seq<Seq<char>>,
    pub class_name: Seq<char>,
    pub name: Seq<char>,
}

impl View for Rule {
    type V = RuleView;

    open spec fn view(&self) -> RuleView {
        RuleView {
            pattern: self.pattern.deep_view(),
            class_name: self.class_name@,
            name: self.name@,
        }
    }
}

impl DeepView for Rule {
    type V = RuleView;

    open spec fn deep_view(&self) -> RuleView {
        self.view()
    }
}

/// The grammar registry: precedence tiers in the order they were opened, each
/// holding its rules in the order they were registered.
#[derive(Debug)]
pub struct Parser {
    pub rules: Vec<Vec<Rule>>,
    pub precedence: usize,
}

impl View for Parser {
    type V = Seq<Seq<RuleView>>;

    open spec fn view(&self) -> Seq<Seq<RuleView>> {
        self.rules.deep_view()
    }
}

/// Every pattern of the tier holds at least one symbol name.
pub open spec fn patterns_nonempty(rules: Seq<RuleView>) -> bool {
    forall|r: int| 0 <= r < rules.len() ==> (#[trigger] rules[r]).pattern.len() >= 1
}

impl Parser {
    /// No pattern of the registry is empty.
    pub open spec fn nonempty_patterns(&self) -> bool {
        forall|t: int| 0 <= t < self@.len() ==> patterns_nonempty(#[trigger] self@[t])
    }

    /// The registry is well formed: the open tier is the last one, and no pattern is
    /// empty.
    pub open spec fn wf(&self) -> bool {
        &&& self.rules@.len() >= 1
        &&& self.precedence == self.rules@.len() - 1
        &&& self.nonempty_patterns()
    }

    /// A registry with one open tier and no rule.
    pub fn new() -> (r: Parser)
        ensures
            r.wf(),
            r@ == seq![Seq::<RuleView>::empty()],
    {
        let mut rules: Vec<Vec<Rule>> = Vec::new();
        rules.push(Vec::new());
        let r = Parser { rules, precedence: 0 };
        assert(r@ =~= seq![Seq::<RuleView>::empty()]) by {
            assert(r.rules@[0].deep_view() =~= Seq::<RuleView>::empty());
        }
        r
    }

    /// Registers a rule in the open tier, after the rules it already holds.
    pub fn add_rule(&mut self, pattern: Vec<&str>, name: &str, class_name: &str)
        requires
            old(self).wf(),
            pattern@.len() >= 1,
        ensures
            final(self).wf(),
            final(self)@ == old(self)@.update(
                old(self)@.len() - 1,
                old(self)@.last().push(
                    (RuleView {
                        pattern: Seq::new(pattern@.len(), |i: int| pattern@[i]@),
                        class_name: class_name@,
                        name: name@,
                    }),
                ),
            ),
    {
        let mut pattern2: Vec<String> = Vec::new();
        let mut i: usize = 0;
        while i < pattern.len()
            invariant
                i <= pattern.len(),
                pattern2@.len() == i,
                forall|j: int| 0 <= j < i ==> pattern2@[j]@ == pattern@[j]@,
            decreases pattern.len() - i,
        {
            pattern2.push(String::from_str(pattern[i]));
            i = i + 1;
        }
        let rule = Rule {
            pattern: pattern2,
            class_name: String::from_str(class_name),
            name: String::from_str(name),
        };
        let ghost added = rule@;
        assert(added.pattern =~= Seq::new(pattern@.len(), |i: int| pattern@[i]@));
        self.rules[self.precedence].push(rule);
        proof {
            let last = old(self)@.len() - 1;
            assert(self.rules@.len() == old(self).rules@.len());
            assert(self.rules@[last]@ == old(self).rules@[last]@.push(rule));
            assert(self@[last] =~= old(self)@[last].push(added));
            assert forall|t: int| 0 <= t < self@.len() && t != last implies self@[t] == old(self)@[t] by {
                assert(self.rules@[t] == old(self).rules@[t]);
            }
            assert(self@ =~= old(self)@.update(last, old(self)@.last().push(added)));
        }
    }

    /// Closes the open tier and opens a new one after it.
    pub fn new_precedence(&mut self)
        requires
            old(self).wf(),
        ensures
            final(self).wf(),
            final(self)@ == old(self)@.push(Seq::<RuleView>::empty()),
    {
        self.rules.push(Vec::new());
        assert(self.rules.len() == old(self).rules.len() + 1);
        self.precedence = self.precedence + 1;
        assert(self@ =~= old(self)@.push(Seq::<RuleView>::empty())) by {
            assert(self.rules@.last().deep_view() =~= Seq::<RuleView>::empty());
        }
    }
}

/// The working sequence of the reduction engine: the symbol names and, beside
/// them, the nodes they name.
pub struct Work {
    pub names: Seq<Seq<char>>,
    pub nodes: Seq<NodeView>,
}

/// The working sequence that two vectors of the engine hold.
pub open spec fn work_of(names: Vec<String>, values: Vec<Node>) -> Work {
    Work { names: names.deep_view(), nodes: values.deep_view() }
}

/// The terminal that wraps `token`: no children, no position of its own, and the
/// marker `TOKEN` both as its action and in place of a line.
pub open spec fn terminal(token: TokenView) -> NodeView {
    NodeView {
        class_name: "TOKEN"@,
        token_values: Seq::empty(),
        token_names: Seq::empty(),
        index: 0,
        line: "TOKEN"@,
        token: Some(token),
    }
}

/// The working sequence a token stream starts as: one terminal per token, named by
/// the token's lexical kind.
pub open spec fn terminals(tokens: Seq<TokenView>) -> Work {
    Work {
        names: Seq::new(tokens.len(), |i: int| tokens[i].name()),
        nodes: Seq::new(tokens.len(), |i: int| terminal(tokens[i])),
    }
}

/// Whether the names from position `at` on spell out `pattern`.
pub open spec fn matches_at(names: Seq<Seq<char>>, at: int, pattern: Seq<Seq<char>>) -> bool {
    &&& 0 <= at
    &&& at + pattern.len() <= names.len()
    &&& names.subrange(at, at + pattern.len()) == pattern
}

/// The working sequence after `rule` has collapsed the span that starts at `at`
/// into one node, which takes the span's place.
pub open spec fn reduce_at(w: Work, at: int, rule: RuleView, line: Seq<char>) -> Work {
    let end = at + rule.pattern.len();
    let node = NodeView {
        class_name: rule.class_name,
        token_values: w.nodes.subrange(at, end),
        token_names: w.names.subrange(at, end),
        index: at,
        line: line,
        token: None,
    };
    Work {
        names: w.names.subrange(0, at).push(rule.name) + w.names.subrange(end, w.names.len() as int),
        nodes: w.nodes.subrange(0, at).push(node) + w.nodes.subrange(end, w.nodes.len() as int),
    }
}

/// One left-to-right scan of `rule` over the working sequence, the cursor standing
/// at `cursor`: a match is collapsed at once, and either way the cursor moves on by
/// one, so that the new node starts no match of this scan. The scan ends where
/// fewer names remain than the pattern holds.
pub open spec fn apply_rule(w: Work, rule: RuleView, line: Seq<char>, cursor: int) -> Work
    decreases w.names.len() - cursor,
{
    if rule.pattern.len() == 0 || cursor < 0 || cursor + rule.pattern.len() > w.names.len() {
        w
    } else if matches_at(w.names, cursor, rule.pattern) {
        apply_rule(reduce_at(w, cursor, rule, line), rule, line, cursor + 1)
    } else {
        apply_rule(w, rule, line, cursor + 1)
    }
}

/// One reduction pass of a tier: each rule scans once, in registration order, the
/// sequence as the rule before it left it.
pub open spec fn apply_tier(w: Work, rules: Seq<RuleView>, line: Seq<char>) -> Work
    decreases rules.len(),
{
    if rules.len() == 0 {
        w
    } else {
        apply_rule(apply_tier(w, rules.drop_last(), line), rules.last(), line, 0)
    }
}

/// One outer iteration: every tier makes its pass, in the order the tiers were
/// opened.
pub open spec fn full_pass(w: Work, tiers: Seq<Seq<RuleView>>, line: Seq<char>) -> Work
    decreases tiers.len(),
{
    if tiers.len() == 0 {
        w
    } else {
        apply_tier(full_pass(w, tiers.drop_last(), line), tiers.last(), line)
    }
}

/// The working sequence at the fixpoint, where at most `passes` outer iterations
/// reach it: the sequence after the first iteration that leaves the symbol names as
/// it found them. `None` where `passes` iterations do not suffice.
pub open spec fn settle(w: Work, tiers: Seq<Seq<RuleView>>, line: Seq<char>, passes: nat) -> Option<
    Work,
>
    decreases passes,
{
    if passes == 0 {
        None
    } else {
        let next = full_pass(w, tiers, line);
        if next.names == w.names {
            Some(next)
        } else {
            settle(next, tiers, line, (passes - 1) as nat)
        }
    }
}

/// Whether the outer loop reaches a fixpoint from `w` at all.
pub open spec fn converges(w: Work, tiers: Seq<Seq<RuleView>>, line: Seq<char>) -> bool {
    exists|passes: nat| (#[trigger] settle(w, tiers, line, passes)) is Some
}

/// The working sequence at the fixpoint that the outer loop reaches from `w`.
pub open spec fn fixpoint(w: Work, tiers: Seq<Seq<RuleView>>, line: Seq<char>) -> Work {
    settle(w, tiers, line, choose|passes: nat| (#[trigger] settle(w, tiers, line, passes)) is Some)->0
}

/// A line that did not reduce to one tree.
#[derive(Debug)]
pub struct SyntaxError {
    /// The offending source line.
    pub line: String,
    /// How many nodes the fixpoint left: zero, or more than one.
    pub leftover: usize,
}

/// What a parse hands back for the nodes the fixpoint left: the only node, or the
/// error that tells how many there are.
pub open spec fn verdict(nodes: Seq<NodeView>, line: Seq<char>, r: Result<Node, SyntaxError>) -> bool {
    if nodes.len() == 1 {
        r matches Ok(root) && root@ == nodes[0]
    } else {
        r matches Err(e) && e.line@ == line && e.leftover == nodes.len()
    }
}

/// A fixpoint that some number of passes reaches is the one every larger number
/// reaches.
pub proof fn lemma_settle_stable(
    w: Work,
    tiers: Seq<Seq<RuleView>>,
    line: Seq<char>,
    passes: nat,
    more: nat,
)
    requires
        settle(w, tiers, line, passes) is Some,
        passes <= more,
    ensures
        settle(w, tiers, line, more) == settle(w, tiers, line, passes),
    decreases passes,
{
    let next = full_pass(w, tiers, line);
    if next.names != w.names {
        lemma_settle_stable(next, tiers, line, (passes - 1) as nat, (more - 1) as nat);
    }
}

/// Whether two vectors spell the same names.
fn same_names(a: &Vec<String>, b: &Vec<String>) -> (r: bool)
    ensures
        r == (a.deep_view() == b.deep_view()),
{
    if a.len() != b.len() {
        assert(a.deep_view().len() != b.deep_view().len());
        return false;
    }
    let mut i: usize = 0;
    while i < a.len()
        invariant
            a.len() == b.len(),
            i <= a.len(),
            forall|j: int| 0 <= j < i ==> a@[j]@ == b@[j]@,
        decreases a.len() - i,
    {
        if !(a[i] == b[i]) {
            assert(a.deep_view()[i as int] != b.deep_view()[i as int]);
            return false;
        }
        i = i + 1;
    }
    assert(a.deep_view() =~= b.deep_view());
    true
}

/// Whether the names from position `at` on spell out `pattern`.
fn matches(names: &Vec<String>, at: usize, pattern: &Vec<String>) -> (r: bool)
    requires
        at + pattern.len() <= names.len(),
    ensures
        r == matches_at(names.deep_view(), at as int, pattern.deep_view()),
{
    let mut k: usize = 0;
    while k < pattern.len()
        invariant
            k <= pattern.len(),
            at + pattern.len() <= names.len(),
            forall|j: int| 0 <= j < k ==> names@[at + j]@ == pattern@[j]@,
        decreases pattern.len() - k,
    {
        if !(names[at + k] == pattern[k]) {
            proof {
                let span = names.deep_view().subrange(at as int, at + pattern.len());
                assert(span[k as int] == names@[at + k]@);
                assert(pattern.deep_view()[k as int] == pattern@[k as int]@);
            }
            return false;
        }
        k = k + 1;
    }
    assert(names.deep_view().subrange(at as int, at + pattern.len()) =~= pattern.deep_view());
    true
}

/// Collapses the span that starts at `at` and is as long as the pattern of `rule`
/// into one node.
fn reduce(names: &mut Vec<String>, values: &mut Vec<Node>, at: usize, rule: &Rule, line: &str)
    requires
        old(names).len() == old(values).len(),
        rule.pattern.len() >= 1,
        at + rule.pattern.len() <= old(names).len(),
    ensures
        work_of(*final(names), *final(values)) == reduce_at(
            work_of(*old(names), *old(values)),
            at as int,
            rule@,
            line@,
        ),
        final(names).len() == final(values).len(),
        final(names).len() == old(names).len() - rule.pattern.len() + 1,
{
    let plen = rule.pattern.len();
    let ghost n0 = names@;
    let ghost v0 = values@;
    let ghost w0 = work_of(*names, *values);
    let mut children: Vec<Node> = Vec::new();
    let mut child_names: Vec<String> = Vec::new();
    let mut k: usize = 0;
    while k < plen
        invariant
            k <= plen,
            at + plen <= n0.len(),
            n0.len() == v0.len(),
            names@ == n0.subrange(0, at as int) + n0.subrange(at + k, n0.len() as int),
            values@ == v0.subrange(0, at as int) + v0.subrange(at + k, v0.len() as int),
            children@ == v0.subrange(at as int, at + k),
            child_names@ == n0.subrange(at as int, at + k),
        decreases plen - k,
    {
        let node = values.remove(at);
        let name = names.remove(at);
        children.push(node);
        child_names.push(name);
        k = k + 1;
    }
    let node = Node {
        class_name: rule.class_name.clone(),
        token_values: children,
        token_names: child_names,
        index: at,
        line: String::from_str(line),
        token: None,
    };
    let ghost built = node@;
    proof {
        node.lemma_children();
        assert(built.token_values =~= w0.nodes.subrange(at as int, at + plen));
        assert(built.token_names =~= w0.names.subrange(at as int, at + plen));
    }
    values.insert(at, node);
    names.insert(at, rule.name.clone());
    proof {
        let target = reduce_at(w0, at as int, rule@, line@);
        assert(names.deep_view() =~= target.names);
        assert(values.deep_view() =~= target.nodes);
    }
}

/// One scan of `rule` over the working sequence, from its first position.
fn scan_rule(names: &mut Vec<String>, values: &mut Vec<Node>, rule: &Rule, line: &str)
    requires
        old(names).len() == old(values).len(),
        rule.pattern.len() >= 1,
    ensures
        work_of(*final(names), *final(values)) == apply_rule(
            work_of(*old(names), *old(values)),
            rule@,
            line@,
            0,
        ),
        final(names).len() == final(values).len(),
{
    let plen = rule.pattern.len();
    let ghost w0 = work_of(*names, *values);
    let mut index: usize = 0;
    while plen <= names.len() && index <= names.len() - plen
        invariant
            names.len() == values.len(),
            plen == rule.pattern.len(),
            plen >= 1,
            apply_rule(w0, rule@, line@, 0) == apply_rule(
                work_of(*names, *values),
                rule@,
                line@,
                index as int,
            ),
        decreases names.len() - index,
    {
        if matches(names, index, &rule.pattern) {
            reduce(names, values, index, rule, line);
        }
        index = index + 1;
    }
}

impl Parser {
    /// One reduction pass of a tier over the working sequence.
    pub fn parse_rules(
        &self,
        names: Vec<String>,
        values: Vec<Node>,
        line: &str,
        rules: &Vec<Rule>,
    ) -> (r: (Vec<Node>, Vec<String>))
        requires
            names.len() == values.len(),
            patterns_nonempty(rules.deep_view()),
        ensures
            work_of(r.1, r.0) == apply_tier(work_of(names, values), rules.deep_view(), line@),
            r.0.len() == r.1.len(),
    {
        let ghost w0 = work_of(names, values);
        let ghost all = rules.deep_view();
        let mut names = names;
        let mut values = values;
        let mut i: usize = 0;
        while i < rules.len()
            invariant
                i <= rules.len(),
                all == rules.deep_view(),
                patterns_nonempty(all),
                names.len() == values.len(),
                work_of(names, values) == apply_tier(w0, all.subrange(0, i as int), line@),
            decreases rules.len() - i,
        {
            proof {
                assert(all[i as int] == rules@[i as int]@);
                assert(all.subrange(0, i + 1).drop_last() =~= all.subrange(0, i as int));
            }
            scan_rule(&mut names, &mut values, &rules[i], line);
            i = i + 1;
        }
        assert(all.subrange(0, i as int) =~= all);
        (values, names)
    }

    /// One outer iteration: a pass of every tier, in order.
    fn pass(&self, names: Vec<String>, values: Vec<Node>, line: &str) -> (r: (
        Vec<Node>,
        Vec<String>,
    ))
        requires
            self.nonempty_patterns(),
            names.len() == values.len(),
        ensures
            work_of(r.1, r.0) == full_pass(work_of(names, values), self@, line@),
            r.0.len() == r.1.len(),
    {
        let ghost w0 = work_of(names, values);
        let mut names = names;
        let mut values = values;
        let mut t: usize = 0;
        while t < self.rules.len()
            invariant
                t <= self.rules.len(),
                self.nonempty_patterns(),
                names.len() == values.len(),
                work_of(names, values) == full_pass(w0, self@.subrange(0, t as int), line@),
            decreases self.rules.len() - t,
        {
            proof {
                assert(self@[t as int] == self.rules@[t as int].deep_view());
                assert(self@.subrange(0, t + 1).drop_last() =~= self@.subrange(0, t as int));
            }
            let (v, n) = self.parse_rules(names, values, line, &self.rules[t]);
            values = v;
            names = n;
            t = t + 1;
        }
        assert(self@.subrange(0, t as int) =~= self@);
        (values, names)
    }

    /// Wraps every token into a terminal.
    fn wrap(tokens: &Vec<Token>) -> (r: (Vec<Node>, Vec<String>))
        ensures
            work_of(r.1, r.0) == terminals(tokens.deep_view()),
            r.0.len() == r.1.len(),
    {
        let mut names: Vec<String> = Vec::new();
        let mut values: Vec<Node> = Vec::new();
        let mut i: usize = 0;
        while i < tokens.len()
            invariant
                i <= tokens.len(),
                names.len() == i,
                values.len() == i,
                forall|j: int| 0 <= j < i ==> names@[j]@ == tokens@[j]@.name(),
                forall|j: int| 0 <= j < i ==> values@[j]@ == terminal(tokens@[j]@),
            decreases tokens.len() - i,
        {
            let node = Node {
                class_name: String::from_str("TOKEN"),
                token_values: Vec::new(),
                token_names: Vec::new(),
                index: 0,
                line: String::from_str("TOKEN"),
                token: Some(tokens[i].clone()),
            };
            proof {
                let built = node@;
                let wanted = terminal(tokens@[i as int]@);
                assert(built.token_values =~= wanted.token_values);
                assert(built.token_names =~= wanted.token_names);
            }
            values.push(node);
            names.push(tokens[i].name());
            i = i + 1;
        }
        proof {
            let target = terminals(tokens.deep_view());
            assert(names.deep_view() =~= target.names);
            assert(values.deep_view() =~= target.nodes);
        }
        (values, names)
    }

    /// Hands back the only node that is left, or the error.
    fn finish(values: Vec<Node>, line: &str) -> (r: Result<Node, SyntaxError>)
        ensures
            verdict(values.deep_view(), line@, r),
    {
        let mut values = values;
        if values.len() == 1 {
            match values.pop() {
                Some(root) => Ok(root),
                None => Err(SyntaxError { line: String::from_str(line), leftover: 0 }),
            }
        } else {
            Err(SyntaxError { line: String::from_str(line), leftover: values.len() })
        }
    }

    /// Parses a token stream into its tree.
    ///
    /// The tokens are wrapped into terminals, and the tiers make their passes over
    /// the working sequence until an outer iteration leaves the symbol names as it
    /// found them. One node left is the tree; any other number is a syntax error of
    /// the line. The outer loop has to reach a fixpoint: [`Parser::try_parse`] and
    /// [`Parser::parse_within`] serve callers who cannot know that it does.
    pub fn parse(&self, tokens: &Vec<Token>, line: &str) -> (r: Result<Node, SyntaxError>)
        requires
            self.nonempty_patterns(),
            converges(terminals(tokens.deep_view()), self@, line@),
        ensures
            verdict(fixpoint(terminals(tokens.deep_view()), self@, line@).nodes, line@, r),
    {
        let ghost w0 = terminals(tokens.deep_view());
        let ghost goal = fixpoint(w0, self@, line@);
        let ghost mut fuel: nat = choose|passes: nat| (#[trigger] settle(w0, self@, line@, passes)) is Some;
        let (v, n) = Self::wrap(tokens);
        let mut values = v;
        let mut names = n;
        loop
            invariant_except_break
                settle(work_of(names, values), self@, line@, fuel) == Some(goal),
            invariant
                self.nonempty_patterns(),
                names.len() == values.len(),
            ensures
                work_of(names, values) == goal,
            decreases fuel,
        {
            let prev = names.clone();
            let ghost before = work_of(names, values);
            assert(prev.deep_view() =~= before.names);
            let (v, n) = self.pass(names, values, line);
            values = v;
            names = n;
            if same_names(&names, &prev) {
                break ;
            }
            proof {
                fuel = (fuel - 1) as nat;
            }
        }
        Self::finish(values, line)
    }

    /// Parses a token stream into its tree, giving up after `max_passes` outer
    /// iterations: `None` where that many do not reach the fixpoint.
    pub fn parse_within(&self, tokens: &Vec<Token>, line: &str, max_passes: usize) -> (r: Option<
        Result<Node, SyntaxError>,
    >)
        requires
            self.nonempty_patterns(),
        ensures
            match settle(terminals(tokens.deep_view()), self@, line@, max_passes as nat) {
                Some(w) => r matches Some(res) && verdict(w.nodes, line@, res),
                None => r is None,
            },
    {
        let ghost w0 = terminals(tokens.deep_view());
        let (v, n) = Self::wrap(tokens);
        let mut values = v;
        let mut names = n;
        let mut left: usize = max_passes;
        while left > 0
            invariant
                self.nonempty_patterns(),
                names.len() == values.len(),
                w0 == terminals(tokens.deep_view()),
                settle(work_of(names, values), self@, line@, left as nat) == settle(
                    w0,
                    self@,
                    line@,
                    max_passes as nat,
                ),
            decreases left,
        {
            let prev = names.clone();
            let ghost before = work_of(names, values);
            assert(prev.deep_view() =~= before.names);
            let (v, n) = self.pass(names, values, line);
            values = v;
            names = n;
            if same_names(&names, &prev) {
                return Some(Self::finish(values, line));
            }
            left = left - 1;
        }
        None
    }
}

} // verus!
