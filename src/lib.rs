//! Lindenmayer systems over caller-defined alphabets.
//!
//! An L-system is a starting sequence of symbols and a production rule that maps
//! every symbol to a sequence of symbols. Each generation is obtained from the one
//! before by replacing every symbol, in parallel and in order, by its image.
use vstd::prelude::*;
use vstd::seq_lib::lemma_flatten_concat;

pub mod algae;

verus! {

/// The rule can be applied to every symbol, and it is a function of its argument:
/// two calls on one symbol give the same sequence.
pub open spec fn is_pure_rule<T, F: Fn(T) -> Vec<T>>(rules: F) -> bool {
    &&& forall|s: T| #[trigger] call_requires(rules, (s,))
    &&& forall|s: T, a: Vec<T>, b: Vec<T>|
        #![trigger call_ensures(rules, (s,), a), call_ensures(rules, (s,), b)]
        call_ensures(rules, (s,), a) && call_ensures(rules, (s,), b) ==> a@ == b@
}

/// The image of one symbol under the rule: what a call of the rule on it returns.
pub open spec fn image<T, F: Fn(T) -> Vec<T>>(rules: F, s: T) -> Seq<T> {
    (choose|r: Vec<T>| call_ensures(rules, (s,), r))@
}

/// One parallel rewrite: the images of the symbols of `s`, concatenated in order.
pub open spec fn rewrite<T, F: Fn(T) -> Vec<T>>(rules: F, s: Seq<T>) -> Seq<T> {
    s.flat_map(|x: T| image(rules, x))
}

/// Generation `n` of the system: the starting sequence itself for `n == 0`, else the rewrite
/// of generation `n - 1`.
pub open spec fn generation<T, F: Fn(T) -> Vec<T>>(rules: F, start: Seq<T>, n: nat) -> Seq<T>
    decreases n,
{
    if n == 0 {
        start
    } else {
        rewrite(rules, generation(rules, start, (n - 1) as nat))
    }
}

/// The sum of the lengths of the images of the symbols of `s`.
pub open spec fn total_image_len<T, F: Fn(T) -> Vec<T>>(rules: F, s: Seq<T>) -> nat
    decreases s.len(),
{
    if s.len() == 0 {
        0
    } else {
        total_image_len(rules, s.drop_last()) + image(rules, s.last()).len()
    }
}

/// Rewriting the empty sequence gives the empty sequence.
pub proof fn lemma_rewrite_empty<T, F: Fn(T) -> Vec<T>>(rules: F, s: Seq<T>)
    requires
        s.len() == 0,
    ensures
        rewrite(rules, s) == Seq::<T>::empty(),
{
    assert(s.map_values(|x: T| image(rules, x)) =~= Seq::<Seq<T>>::empty());
    assert(rewrite(rules, s) =~= Seq::<T>::empty());
}

/// The rewrite of `s` is as long as the images of its symbols together.
pub proof fn lemma_rewrite_len<T, F: Fn(T) -> Vec<T>>(rules: F, s: Seq<T>)
    ensures
        rewrite(rules, s).len() == total_image_len(rules, s),
    decreases s.len(),
{
    if s.len() == 0 {
        lemma_rewrite_empty(rules, s);
    } else {
        let init = s.drop_last();
        lemma_rewrite_len(rules, init);
        init.lemma_flat_map_push(|x: T| image(rules, x), s.last());
        assert(init.push(s.last()) =~= s);
    }
}

/// The rewrite of a concatenation is the concatenation of the rewrites.
pub proof fn lemma_rewrite_concat<T, F: Fn(T) -> Vec<T>>(rules: F, a: Seq<T>, b: Seq<T>)
    ensures
        rewrite(rules, a + b) == rewrite(rules, a) + rewrite(rules, b),
{
    let f = |x: T| image(rules, x);
    assert((a + b).map_values(f) =~= a.map_values(f) + b.map_values(f));
    lemma_flatten_concat(a.map_values(f), b.map_values(f));
}

/// The first generation is the starting sequence, untouched by the rule.
pub proof fn lemma_generation_zero<T, F: Fn(T) -> Vec<T>>(rules: F, start: Seq<T>)
    ensures
        generation(rules, start, 0) == start,
{
}

/// Each generation is the images of the symbols of the one before, concatenated in
/// order; so its length is the sum of the lengths of those images.
pub proof fn lemma_generation_step<T, F: Fn(T) -> Vec<T>>(rules: F, start: Seq<T>, n: nat)
    ensures
        generation(rules, start, n + 1) == rewrite(rules, generation(rules, start, n)),
        generation(rules, start, n + 1).len() == total_image_len(
            rules,
            generation(rules, start, n),
        ),
{
    lemma_rewrite_len(rules, generation(rules, start, n));
}

/// The image of the symbol at position `i` stands as one block in the rewrite,
/// starting where the images of the symbols before it end.
pub proof fn lemma_image_placement<T, F: Fn(T) -> Vec<T>>(rules: F, s: Seq<T>, i: int)
    requires
        0 <= i < s.len(),
    ensures
        rewrite(rules, s).subrange(
            total_image_len(rules, s.take(i)) as int,
            total_image_len(rules, s.take(i)) + image(rules, s[i]).len() as int,
        ) == image(rules, s[i]),
{
    let f = |x: T| image(rules, x);
    assert(s =~= s.take(i + 1) + s.skip(i + 1));
    lemma_rewrite_concat(rules, s.take(i + 1), s.skip(i + 1));
    s.lemma_flat_map_take_append(f, i);
    lemma_rewrite_len(rules, s.take(i));
    let before = rewrite(rules, s.take(i));
    let whole = rewrite(rules, s);
    assert(whole =~= before + image(rules, s[i]) + rewrite(rules, s.skip(i + 1)));
    assert(whole.subrange(before.len() as int, before.len() + image(rules, s[i]).len() as int)
        =~= image(rules, s[i]));
}

/// Where the rule maps the starting sequence to itself, every generation is that sequence.
pub proof fn lemma_fixed_point<T, F: Fn(T) -> Vec<T>>(rules: F, start: Seq<T>, n: nat)
    requires
        rewrite(rules, start) == start,
    ensures
        generation(rules, start, n) == start,
    decreases n,
{
    if n > 0 {
        lemma_fixed_point(rules, start, (n - 1) as nat);
    }
}

/// Once a generation is empty, every later generation is empty too.
pub proof fn lemma_empty_stays_empty<T, F: Fn(T) -> Vec<T>>(
    rules: F,
    start: Seq<T>,
    n: nat,
    m: nat,
)
    requires
        n <= m,
        generation(rules, start, n).len() == 0,
    ensures
        generation(rules, start, m) == Seq::<T>::empty(),
    decreases m - n,
{
    if m == n {
        assert(generation(rules, start, m) =~= Seq::<T>::empty());
    } else {
        lemma_empty_stays_empty(rules, start, n, (m - 1) as nat);
        lemma_rewrite_empty(rules, generation(rules, start, (m - 1) as nat));
    }
}

/// From an empty starting sequence, every generation is empty, whatever the rule.
pub proof fn lemma_empty_start<T, F: Fn(T) -> Vec<T>>(rules: F, n: nat)
    ensures
        generation(rules, Seq::<T>::empty(), n) == Seq::<T>::empty(),
{
    lemma_empty_stays_empty(rules, Seq::<T>::empty(), 0, n);
}

/// A value returned by a pure rule is the image of its argument.
pub proof fn lemma_call_gives_image<T, F: Fn(T) -> Vec<T>>(rules: F, s: T, r: Vec<T>)
    requires
        is_pure_rule(rules),
        call_ensures(rules, (s,), r),
    ensures
        r@ == image(rules, s),
{
    let c = choose|c: Vec<T>| call_ensures(rules, (s,), c);
    assert(call_ensures(rules, (s,), c));
}

/// A copy of a sequence of symbols.
fn copy_symbols<T: Copy>(v: &Vec<T>) -> (r: Vec<T>)
    ensures
        r@ == v@,
{
    let mut r: Vec<T> = Vec::new();
    let mut i: usize = 0;
    while i < v.len()
        invariant
            i <= v.len(),
            r@ == v@.take(i as int),
        decreases v.len() - i,
    {
        r.push(v[i]);
        i = i + 1;
        assert(r@ =~= v@.take(i as int));
    }
    assert(v@.take(v.len() as int) =~= v@);
    r
}

/// A Lindenmayer system: a starting sequence and a production rule, together with a cursor
/// over its generations.
///
/// Each call of `next` yields the following generation, beginning with the starting sequence
/// itself. The sequence of generations never ends.
#[verifier::reject_recursive_types(T)]
pub struct LSystem<T, F: Fn(T) -> Vec<T>> {
    current: Vec<T>,
    rules: F,
    zeroth: bool,
    origin: Ghost<Seq<T>>,
    emitted: Ghost<nat>,
}

impl<T: Copy, F: Fn(T) -> Vec<T>> LSystem<T, F> {
    /// The production rule.
    pub closed spec fn rules(self) -> F {
        self.rules
    }

    /// The starting sequence the system was created with.
    pub closed spec fn start(self) -> Seq<T> {
        self.origin@
    }

    /// How many generations have been yielded so far.
    pub closed spec fn emitted(self) -> nat {
        self.emitted@
    }

    /// The sequence the cursor holds: the last generation yielded, or the start
    /// before the first one.
    pub closed spec fn current(self) -> Seq<T> {
        self.current@
    }

    /// The rule is pure, and the cursor holds the generation that was last yielded.
    pub closed spec fn wf(self) -> bool {
        &&& is_pure_rule(self.rules)
        &&& (self.zeroth <==> self.emitted@ == 0)
        &&& self.current@ == generation(
            self.rules,
            self.origin@,
            if self.zeroth { 0 } else { (self.emitted@ - 1) as nat },
        )
    }

    /// Two systems with the same rule and starting sequence that have yielded as many
    /// generations hold the same sequence: advancing them in step yields the same
    /// generations.
    pub proof fn lemma_same_grammar_agree(p: Self, q: Self)
        requires
            p.wf(),
            q.wf(),
            p.rules() == q.rules(),
            p.start() == q.start(),
            p.emitted() == q.emitted(),
        ensures
            p.current() == q.current(),
    {
    }

    /// Creates a new representation of an L-system with the given starting sequence and production rules.
    pub fn new(start: Vec<T>, rules: F) -> (r: LSystem<T, F>)
        requires
            is_pure_rule(rules),
        ensures
            r.wf(),
            r.rules() == rules,
            r.start() == start@,
            r.emitted() == 0,
            r.current() == start@,
    {
        let ghost origin = start@;
        LSystem { current: start, rules, zeroth: true, origin: Ghost(origin), emitted: Ghost(0) }
    }

    /// Yields the next generation: the starting sequence on the first call, and
    /// after that the rewrite of the generation yielded before. Never returns `None`.
    pub fn next(&mut self) -> (r: Option<Vec<T>>)
        requires
            old(self).wf(),
        ensures
            final(self).wf(),
            final(self).rules() == old(self).rules(),
            final(self).start() == old(self).start(),
            final(self).emitted() == old(self).emitted() + 1,
            r is Some,
            r->0@ == generation(old(self).rules(), old(self).start(), old(self).emitted()),
            old(self).emitted() == 0 ==> r->0@ == old(self).start(),
            old(self).emitted() > 0 ==> r->0@ == rewrite(old(self).rules(), old(self).current()),
            final(self).current() == r->0@,
    {
        if self.zeroth {
            self.zeroth = false;
            self.emitted = Ghost(1);
            return Some(copy_symbols(&self.current));
        }
        let ghost rules = self.rules;
        let ghost prev = self.current@;
        let mut next_gen: Vec<T> = Vec::new();
        let mut i: usize = 0;
        while i < self.current.len()
            invariant
                self.rules == rules,
                self.current@ == prev,
                is_pure_rule(rules),
                i <= prev.len(),
                next_gen@ == rewrite(rules, prev.take(i as int)),
            decreases prev.len() - i,
        {
            let mut piece = (self.rules)(self.current[i]);
            proof {
                lemma_call_gives_image(rules, prev[i as int], piece);
                prev.lemma_flat_map_take_append(|x: T| image(rules, x), i as int);
            }
            next_gen.append(&mut piece);
            i = i + 1;
        }
        assert(prev.take(prev.len() as int) =~= prev);
        self.current = next_gen;
        self.emitted = Ghost((self.emitted@ + 1) as nat);
        Some(copy_symbols(&self.current))
    }
}

} // verus!
