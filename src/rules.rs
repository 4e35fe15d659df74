use vstd::prelude::*;

verus! {

/// A production: every `trigger` is replaced by `replacement`.
pub struct Rule {
    pub trigger: char,
    pub replacement: Vec<char>,
}

impl Rule {
    pub open spec fn view(&self) -> (char, Seq<char>) {
        (self.trigger, self.replacement@)
    }

    pub fn new(trigger: char, replacement: Vec<char>) -> (r: Rule)
        ensures
            r@ == (trigger, replacement@),
    {
        Rule { trigger, replacement }
    }
}

/// The image of `c` under `rules`: the replacement of the first rule whose
/// trigger is `c`, or `c` itself when no rule names it.
pub open spec fn lookup_spec(rules: Seq<(char, Seq<char>)>, c: char) -> Seq<char>
    decreases rules.len(),
{
    if rules.len() == 0 {
        seq![c]
    } else if rules[0].0 == c {
        rules[0].1
    } else {
        lookup_spec(rules.subrange(1, rules.len() as int), c)
    }
}

/// An ordered list of productions; on equal triggers the earlier one wins.
pub struct RuleSet {
    rules: Vec<Rule>,
}

impl RuleSet {
    pub closed spec fn view(&self) -> Seq<(char, Seq<char>)> {
        self.rules@.map_values(|r: Rule| r@)
    }

    pub fn new() -> (r: RuleSet)
        ensures
            r@ == Seq::<(char, Seq<char>)>::empty(),
    {
        let r = RuleSet { rules: Vec::new() };
        assert(r@ =~= Seq::<(char, Seq<char>)>::empty());
        r
    }

    /// Adds a production after the existing ones.
    pub fn register(&mut self, trigger: char, replacement: Vec<char>)
        ensures
            final(self)@ == old(self)@.push((trigger, replacement@)),
    {
        let ghost rep = replacement@;
        self.rules.push(Rule::new(trigger, replacement));
        assert(self@ =~= old(self)@.push((trigger, rep)));
    }

    pub fn len(&self) -> (r: usize)
        ensures
            r == self@.len(),
    {
        self.rules.len()
    }

    /// The replacement for `c`; total, never fails.
    pub fn lookup(&self, c: char) -> (r: Vec<char>)
        ensures
            r@ == lookup_spec(self@, c),
    {
        let n = self.rules.len();
        let mut j: usize = 0;
        assert(self@.subrange(0, n as int) =~= self@);
        while j < n
            invariant
                n == self.rules@.len(),
                j <= n,
                lookup_spec(self@, c) == lookup_spec(self@.subrange(j as int, n as int), c),
            decreases n - j,
        {
            let ghost rest = self@.subrange(j as int, n as int);
            assert(rest.subrange(1, rest.len() as int) =~= self@.subrange(j + 1, n as int));
            if self.rules[j].trigger == c {
                return self.rules[j].replacement.clone();
            }
            j += 1;
        }
        let mut r: Vec<char> = Vec::new();
        r.push(c);
        assert(self@.subrange(n as int, n as int).len() == 0);
        assert(r@ =~= seq![c]);
        r
    }
}

} // verus!
