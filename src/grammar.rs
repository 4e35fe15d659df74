use vstd::arithmetic::power::pow;
use vstd::prelude::*;

use crate::rules::{lookup_spec, RuleSet};

verus! {

/// One rewrite pass: the images of the symbols of `s`, concatenated in order.
pub open spec fn next_gen(s: Seq<char>, rules: Seq<(char, Seq<char>)>) -> Seq<char>
    decreases s.len(),
{
    if s.len() == 0 {
        Seq::empty()
    } else {
        next_gen(s.drop_last(), rules) + lookup_spec(rules, s.last())
    }
}

/// The sum, over the symbols of `s`, of the lengths of their images.
pub open spec fn image_len_sum(s: Seq<char>, rules: Seq<(char, Seq<char>)>) -> int
    decreases s.len(),
{
    if s.len() == 0 {
        0
    } else {
        image_len_sum(s.drop_last(), rules) + lookup_spec(rules, s.last()).len()
    }
}

/// A rewrite pass makes a sentence as long as the images of its symbols put
/// together; a symbol without a rule counts one.
pub proof fn lemma_next_gen_len(s: Seq<char>, rules: Seq<(char, Seq<char>)>)
    ensures
        next_gen(s, rules).len() == image_len_sum(s, rules),
    decreases s.len(),
{
    if s.len() > 0 {
        lemma_next_gen_len(s.drop_last(), rules);
    }
}

/// The sequence after `n` rewrite passes from `s`.
pub open spec fn iterate(s: Seq<char>, rules: Seq<(char, Seq<char>)>, n: nat) -> Seq<char>
    decreases n,
{
    if n == 0 {
        s
    } else {
        next_gen(iterate(s, rules, (n - 1) as nat), rules)
    }
}

/// Rewrites every symbol of `current` by `rules`, in order.
pub fn generate_next(current: &Vec<char>, rules: &RuleSet) -> (r: Vec<char>)
    ensures
        r@ == next_gen(current@, rules@),
{
    let mut out: Vec<char> = Vec::new();
    let n = current.len();
    let mut i: usize = 0;
    while i < n
        invariant
            n == current@.len(),
            i <= n,
            out@ == next_gen(current@.subrange(0, i as int), rules@),
        decreases n - i,
    {
        let img = rules.lookup(current[i]);
        let mut k: usize = 0;
        let ghost before = out@;
        while k < img.len()
            invariant
                k <= img@.len(),
                out@ == before + img@.subrange(0, k as int),
            decreases img@.len() - k,
        {
            out.push(img[k]);
            k += 1;
            assert(out@ =~= before + img@.subrange(0, k as int));
        }
        assert(img@.subrange(0, k as int) =~= img@);
        assert(current@.subrange(0, i + 1).drop_last() =~= current@.subrange(0, i as int));
        i += 1;
    }
    assert(current@.subrange(0, n as int) =~= current@);
    out
}

/// A rewriting system: the current sentence, its rules and how many passes
/// have been applied since the start.
pub struct Lsystem {
    pub sentence: Vec<char>,
    pub rule_set: RuleSet,
    pub generation: usize,
}

impl Lsystem {
    pub fn new(start: Vec<char>, rule_set: RuleSet) -> (r: Lsystem)
        ensures
            r.sentence@ == start@,
            r.rule_set@ == rule_set@,
            r.generation == 0,
    {
        Lsystem { sentence: start, rule_set, generation: 0 }
    }

    /// Replaces the sentence by its next generation.
    pub fn generate(&mut self)
        requires
            old(self).generation < usize::MAX,
        ensures
            final(self).sentence@ == next_gen(old(self).sentence@, old(self).rule_set@),
            final(self).rule_set@ == old(self).rule_set@,
            final(self).generation == old(self).generation + 1,
    {
        self.sentence = generate_next(&self.sentence, &self.rule_set);
        self.generation += 1;
    }

    /// Replaces the sentence by its next generation only when that is at
    /// most `limit` symbols long; otherwise leaves everything as it was and
    /// returns the length that was refused.
    pub fn generate_within(&mut self, limit: usize) -> (r: Result<(), usize>)
        requires
            old(self).generation < usize::MAX,
        ensures
            final(self).rule_set@ == old(self).rule_set@,
            next_gen(old(self).sentence@, old(self).rule_set@).len() <= limit ==> {
                &&& r is Ok
                &&& final(self).sentence@ == next_gen(old(self).sentence@, old(self).rule_set@)
                &&& final(self).generation == old(self).generation + 1
            },
            next_gen(old(self).sentence@, old(self).rule_set@).len() > limit ==> {
                &&& r == Err::<(), usize>(next_gen(old(self).sentence@, old(self).rule_set@).len() as usize)
                &&& final(self).sentence@ == old(self).sentence@
                &&& final(self).generation == old(self).generation
            },
    {
        let next = generate_next(&self.sentence, &self.rule_set);
        if next.len() > limit {
            return Err(next.len());
        }
        self.sentence = next;
        self.generation += 1;
        Ok(())
    }

    /// Applies `n` passes in turn.
    pub fn advance(&mut self, n: usize)
        requires
            old(self).generation + n <= usize::MAX,
        ensures
            final(self).sentence@ == iterate(old(self).sentence@, old(self).rule_set@, n as nat),
            final(self).rule_set@ == old(self).rule_set@,
            final(self).generation == old(self).generation + n,
    {
        let mut k: usize = 0;
        while k < n
            invariant
                k <= n,
                self.generation == old(self).generation + k,
                old(self).generation + n <= usize::MAX,
                self.rule_set@ == old(self).rule_set@,
                self.sentence@ == iterate(old(self).sentence@, old(self).rule_set@, k as nat),
            decreases n - k,
        {
            self.generate();
            k += 1;
        }
    }
}

/// The same axiom and rules, advanced the same number of passes, always give
/// the same sentence.
pub proof fn lemma_deterministic(
    a: Seq<char>,
    b: Seq<char>,
    ra: Seq<(char, Seq<char>)>,
    rb: Seq<(char, Seq<char>)>,
    n: nat,
)
    requires
        a == b,
        ra == rb,
    ensures
        iterate(a, ra, n) == iterate(b, rb, n),
{
}

proof fn lemma_next_gen_uniform(s: Seq<char>, rules: Seq<(char, Seq<char>)>, c: char, k: nat)
    requires
        lookup_spec(rules, c) =~= Seq::new(k, |i: int| c),
        forall|i: int| 0 <= i < s.len() ==> s[i] == c,
    ensures
        next_gen(s, rules).len() == s.len() * k,
        forall|i: int| 0 <= i < next_gen(s, rules).len() ==> next_gen(s, rules)[i] == c,
    decreases s.len(),
{
    if s.len() > 0 {
        lemma_next_gen_uniform(s.drop_last(), rules, c, k);
        let l = s.len() as int;
        assert(l * k == (l - 1) * k + k) by (nonlinear_arith);
    }
}

/// When `c` is rewritten to `k` copies of itself, a lone `c` grows to a
/// sentence of `k` to the power `n` symbols after `n` passes.
pub proof fn lemma_growth(rules: Seq<(char, Seq<char>)>, c: char, k: nat, n: nat)
    requires
        lookup_spec(rules, c) =~= Seq::new(k, |i: int| c),
    ensures
        iterate(seq![c], rules, n).len() == pow(k as int, n),
        forall|i: int| 0 <= i < iterate(seq![c], rules, n).len() ==> iterate(seq![c], rules, n)[i] == c,
    decreases n,
{
    reveal(pow);
    if n > 0 {
        lemma_growth(rules, c, k, (n - 1) as nat);
        lemma_next_gen_uniform(iterate(seq![c], rules, (n - 1) as nat), rules, c, k);
        let p = pow(k as int, (n - 1) as nat);
        assert(p * k == k * p) by (nonlinear_arith);
    }
}

} // verus!
