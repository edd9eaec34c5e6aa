//! Greedy decoding and ranking of tokens. Logits are binary32 patterns,
//! probabilities binary64 patterns.

use vstd::prelude::*;

use crate::float_bits::{less32, lt32, nan32, nan64, rank64, NEG_INFINITY32, SIGN64};
use crate::order::{comes_first, is_stable_order, stable_order};

verus! {

/// The place and the value of the highest logit, the first of equal ones.
/// Without one above negative infinity it is place 0.
pub open spec fn best(logits: Seq<u32>) -> (int, u32)
    decreases logits.len(),
{
    if logits.len() == 0 {
        (0, NEG_INFINITY32)
    } else {
        let b = best(logits.drop_last());
        if lt32(b.1, logits.last()) {
            (logits.len() - 1, logits.last())
        } else {
            b
        }
    }
}

/// The place of the highest logit, the first of equal ones.
pub fn argmax(logits: &Vec<u32>) -> (at: u32)
    ensures
        at == best_token(logits@),
{
    let mut at: u32 = 0;
    let mut high: u32 = NEG_INFINITY32;
    let mut i: usize = 0;
    while i < logits.len()
        invariant
            i <= logits@.len(),
            at == best(logits@.take(i as int)).0 as u32,
            high == best(logits@.take(i as int)).1,
        decreases logits@.len() - i,
    {
        proof {
            let t = logits@.take(i + 1);
            assert(t.drop_last() =~= logits@.take(i as int));
            assert(t.last() == logits@[i as int]);
        }
        if less32(high, logits[i]) {
            high = logits[i];
            at = i as u32;
        }
        i = i + 1;
    }
    assert(logits@.take(i as int) =~= logits@);
    at
}

/// No logit is above the highest, and those before it are below it.
pub proof fn best_is_first_highest(logits: Seq<u32>)
    ensures
        !nan32(best(logits).1),
        0 <= best(logits).0,
        logits.len() > 0 ==> best(logits).0 < logits.len(),
        best(logits).1 == NEG_INFINITY32 || logits[best(logits).0] == best(logits).1,
        forall|i: int| 0 <= i < logits.len() ==> !lt32(best(logits).1, #[trigger] logits[i]),
        forall|i: int|
            0 <= i < best(logits).0 && !nan32(#[trigger] logits[i]) ==> lt32(
                logits[i],
                best(logits).1,
            ),
    decreases logits.len(),
{
    if logits.len() > 0 {
        let init = logits.drop_last();
        best_is_first_highest(init);
        assert(logits[logits.len() - 1] == logits.last());
        assert forall|i: int| 0 <= i < logits.len() implies !lt32(
            best(logits).1,
            #[trigger] logits[i],
        ) by {
            if i < init.len() {
                assert(logits[i] == init[i]);
            }
        }
        assert forall|i: int|
            0 <= i < best(logits).0 && !nan32(#[trigger] logits[i]) implies lt32(
            logits[i],
            best(logits).1,
        ) by {
            if i < init.len() {
                assert(logits[i] == init[i]);
            }
        }
    }
}

/// What the caller of a [`GreedyDecoder`] does next.
#[derive(Debug, Clone, Copy, PartialEq, Eq, Structural)]
pub enum GreedyAction {
    /// Run the model on this token.
    Decode(u32),
    /// Stop.
    Finish,
}

/// Greedy generation of at most `max_new_tokens` tokens, up to the stop
/// token.
pub struct GreedyDecoder {
    pub generated: Vec<u32>,
    /// Whether the stop token came.
    pub stopped: bool,
    pub max_new_tokens: usize,
    pub stop_token: Option<u32>,
}

impl GreedyDecoder {
    /// No more tokens than were asked for, and none of them the stop token.
    pub open spec fn well_formed(&self) -> bool {
        &&& self.generated@.len() <= self.max_new_tokens
        &&& self.stop_token is Some ==> !self.generated@.contains(self.stop_token->0)
    }

    /// A generation that has not begun.
    pub fn new(max_new_tokens: usize, stop_token: Option<u32>) -> (d: Self)
        ensures
            d.well_formed(),
            d.generated@ == Seq::<u32>::empty(),
            !d.stopped,
            d.max_new_tokens == max_new_tokens,
            d.stop_token == stop_token,
    {
        GreedyDecoder { generated: Vec::new(), stopped: false, max_new_tokens, stop_token }
    }

    /// Whether there is anything to run for a prompt of this many tokens.
    pub fn begins(&self, prompt_len: usize) -> (r: bool)
        ensures
            r == (prompt_len > 0 && self.max_new_tokens > 0),
    {
        prompt_len > 0 && self.max_new_tokens > 0
    }

    /// Takes the logits of the last position: the token with the highest one
    /// comes next, unless there are enough tokens or the stop token came.
    pub fn on_logits(&mut self, logits: &Vec<u32>) -> (a: GreedyAction)
        requires
            old(self).well_formed(),
        ensures
            final(self).well_formed(),
            final(self).max_new_tokens == old(self).max_new_tokens,
            final(self).stop_token == old(self).stop_token,
            (final(self).generated@, final(self).stopped) == extended(
                old(self).generated@,
                old(self).stopped,
                old(self).max_new_tokens,
                old(self).stop_token,
                logits@,
            ),
            a == (if final(self).generated@.len() > old(self).generated@.len() {
                GreedyAction::Decode(best_token(logits@))
            } else {
                GreedyAction::Finish
            }),
    {
        if self.stopped || self.generated.len() >= self.max_new_tokens {
            return GreedyAction::Finish;
        }
        let next: u32 = argmax(logits);
        if let Some(stop) = self.stop_token {
            if next == stop {
                self.stopped = true;
                return GreedyAction::Finish;
            }
        }
        let ghost before = self.generated@;
        self.generated.push(next);
        proof {
            if self.stop_token is Some && self.generated@.contains(self.stop_token->0) {
                let i = choose|i: int|
                    0 <= i < self.generated@.len() && self.generated@[i] == self.stop_token->0;
                assert(before[i] == self.stop_token->0);
            }
        }
        GreedyAction::Decode(next)
    }
}

/// The token with the highest logit.
pub open spec fn best_token(logits: Seq<u32>) -> u32 {
    best(logits).0 as u32
}

/// The tokens after one more position, and whether the stop token came: the
/// token with the highest logit is added, unless there are enough tokens or
/// the stop token came.
pub open spec fn extended(
    generated: Seq<u32>,
    stopped: bool,
    max_new_tokens: usize,
    stop_token: Option<u32>,
    logits: Seq<u32>,
) -> (Seq<u32>, bool) {
    if stopped || generated.len() >= max_new_tokens {
        (generated, stopped)
    } else if stop_token == Some(best_token(logits)) {
        (generated, true)
    } else {
        (generated.push(best_token(logits)), false)
    }
}

/// The tokens of a decoder that was given the logits of position after
/// position, and whether the stop token came.
pub open spec fn decoded(
    logits: Seq<Seq<u32>>,
    max_new_tokens: usize,
    stop_token: Option<u32>,
) -> (Seq<u32>, bool)
    decreases logits.len(),
{
    if logits.len() == 0 {
        (seq![], false)
    } else {
        let (generated, stopped) = decoded(logits.drop_last(), max_new_tokens, stop_token);
        extended(generated, stopped, max_new_tokens, stop_token, logits.last())
    }
}

/// The first position whose best token is the stop token, or the number of
/// positions where there is none.
pub open spec fn first_stop(logits: Seq<Seq<u32>>, stop_token: Option<u32>) -> nat
    decreases logits.len(),
{
    if logits.len() == 0 || stop_token == Some(best_token(logits[0])) {
        0
    } else {
        1 + first_stop(logits.drop_first(), stop_token)
    }
}

/// How many tokens come: one per position before the stop token, and no more
/// than were asked for.
pub open spec fn generated_len(
    logits: Seq<Seq<u32>>,
    max_new_tokens: nat,
    stop_token: Option<u32>,
) -> nat {
    if first_stop(logits, stop_token) < max_new_tokens {
        first_stop(logits, stop_token)
    } else {
        max_new_tokens
    }
}

/// The tokens that come of the logits of position after position: the best
/// token of each, up to the stop token and to the number that was asked for.
pub open spec fn generated_from(
    logits: Seq<Seq<u32>>,
    max_new_tokens: nat,
    stop_token: Option<u32>,
) -> Seq<u32> {
    Seq::new(
        generated_len(logits, max_new_tokens, stop_token),
        |i: int| best_token(logits[i]),
    )
}

/// The stop token is best where it is first so and nowhere before.
proof fn first_stop_is_first(logits: Seq<Seq<u32>>, stop_token: Option<u32>)
    ensures
        first_stop(logits, stop_token) <= logits.len(),
        forall|i: int|
            0 <= i < first_stop(logits, stop_token) ==> stop_token != Some(
                best_token(#[trigger] logits[i]),
            ),
        first_stop(logits, stop_token) < logits.len() ==> stop_token == Some(
            best_token(logits[first_stop(logits, stop_token) as int]),
        ),
    decreases logits.len(),
{
    if logits.len() > 0 && stop_token != Some(best_token(logits[0])) {
        let rest = logits.drop_first();
        first_stop_is_first(rest, stop_token);
        assert forall|i: int| 0 <= i < first_stop(logits, stop_token) implies stop_token != Some(
            best_token(#[trigger] logits[i]),
        ) by {
            if i > 0 {
                assert(logits[i] == rest[i - 1]);
            }
        }
    }
}

/// A beginning has its first stop where the whole has it, where that is
/// within it.
proof fn first_stop_of_beginning(logits: Seq<Seq<u32>>, n: int, stop_token: Option<u32>)
    requires
        0 <= n <= logits.len(),
    ensures
        first_stop(logits.take(n), stop_token) == (if first_stop(logits, stop_token) < n {
            first_stop(logits, stop_token)
        } else {
            n as nat
        }),
{
    let k = first_stop(logits, stop_token) as int;
    let t = logits.take(n);
    let j = first_stop(t, stop_token) as int;
    first_stop_is_first(logits, stop_token);
    first_stop_is_first(t, stop_token);
    if j < n {
        assert(t[j] == logits[j]);
        assert(k <= j);
        if k < j {
            assert(t[k] == logits[k]);
        }
    } else if k < n {
        assert(t[k] == logits[k]);
    }
}

/// A decoder gives the best token of each position, up to the stop token and
/// to the number that was asked for.
pub proof fn decoder_generates(
    logits: Seq<Seq<u32>>,
    max_new_tokens: usize,
    stop_token: Option<u32>,
)
    ensures
        decoded(logits, max_new_tokens, stop_token).0 == generated_from(
            logits,
            max_new_tokens as nat,
            stop_token,
        ),
        decoded(logits, max_new_tokens, stop_token).1 <==> first_stop(logits, stop_token)
            < logits.len() && first_stop(logits, stop_token) < max_new_tokens,
    decreases logits.len(),
{
    let all = generated_from(logits, max_new_tokens as nat, stop_token);
    if logits.len() == 0 {
        assert(decoded(logits, max_new_tokens, stop_token).0 =~= all);
    } else {
        let n = logits.len() - 1;
        let init = logits.drop_last();
        assert(init =~= logits.take(n));
        decoder_generates(init, max_new_tokens, stop_token);
        first_stop_of_beginning(logits, n, stop_token);
        first_stop_is_first(logits, stop_token);
        assert(decoded(logits, max_new_tokens, stop_token).0 =~= all);
    }
}

/// No more tokens come than were asked for; without a stop token exactly one
/// per position until there are enough; and the stop token never comes out.
pub proof fn greedy_length(logits: Seq<Seq<u32>>, max_new_tokens: nat, stop_token: Option<u32>)
    ensures
        generated_from(logits, max_new_tokens, stop_token).len() <= max_new_tokens,
        stop_token is None ==> generated_from(logits, max_new_tokens, stop_token).len() == (
        if logits.len() < max_new_tokens {
            logits.len()
        } else {
            max_new_tokens
        }),
        stop_token is Some ==> !generated_from(logits, max_new_tokens, stop_token).contains(
            stop_token->0,
        ),
{
    first_stop_is_first(logits, stop_token);
    let all = generated_from(logits, max_new_tokens, stop_token);
    if stop_token is Some && all.contains(stop_token->0) {
        let i = choose|i: int| 0 <= i < all.len() && all[i] == stop_token->0;
        assert(stop_token != Some(best_token(logits[i])));
    }
}

/// Nothing follows the stop token: where it is the best token of a position,
/// the positions from there on add nothing.
pub proof fn nothing_follows_stop(
    logits: Seq<Seq<u32>>,
    max_new_tokens: nat,
    stop_token: Option<u32>,
    i: int,
)
    requires
        0 <= i < logits.len(),
        stop_token == Some(best_token(logits[i])),
    ensures
        generated_from(logits, max_new_tokens, stop_token) == generated_from(
            logits.take(i),
            max_new_tokens,
            stop_token,
        ),
{
    first_stop_is_first(logits, stop_token);
    first_stop_of_beginning(logits, i, stop_token);
    assert(generated_from(logits, max_new_tokens, stop_token) =~= generated_from(
        logits.take(i),
        max_new_tokens,
        stop_token,
    ));
}

/// A smaller limit gives the beginning of what a larger one gives.
pub proof fn limit_cuts(logits: Seq<Seq<u32>>, m: nat, n: nat, stop_token: Option<u32>)
    requires
        m <= n,
    ensures
        ({
            let long = generated_from(logits, n, stop_token);
            generated_from(logits, m, stop_token) == long.take(
                if m < long.len() {
                    m as int
                } else {
                    long.len() as int
                },
            )
        }),
{
    let long = generated_from(logits, n, stop_token);
    assert(generated_from(logits, m, stop_token) =~= long.take(
        if m < long.len() {
            m as int
        } else {
            long.len() as int
        },
    ));
}

/// What a model generates greedily after a prompt, where `model` gives the
/// logits that follow a sequence of tokens.
pub open spec fn greedy(
    model: spec_fn(Seq<u32>) -> Seq<u32>,
    prompt: Seq<u32>,
    max_new_tokens: nat,
    stop_token: Option<u32>,
) -> Seq<u32>
    decreases max_new_tokens,
{
    if prompt.len() == 0 || max_new_tokens == 0 {
        seq![]
    } else {
        let before = greedy(model, prompt, (max_new_tokens - 1) as nat, stop_token);
        let next = best_token(model(prompt + before));
        if before.len() < max_new_tokens - 1 || stop_token == Some(next) {
            before
        } else {
            before.push(next)
        }
    }
}

/// Nothing is generated without a prompt or a limit above zero; never more
/// tokens than the limit, and never the stop token; and without a stop token
/// exactly as many as the limit.
pub proof fn greedy_is_bounded(
    model: spec_fn(Seq<u32>) -> Seq<u32>,
    prompt: Seq<u32>,
    n: nat,
    stop_token: Option<u32>,
)
    ensures
        prompt.len() == 0 || n == 0 ==> greedy(model, prompt, n, stop_token).len() == 0,
        greedy(model, prompt, n, stop_token).len() <= n,
        stop_token is Some ==> !greedy(model, prompt, n, stop_token).contains(stop_token->0),
        stop_token is None && prompt.len() > 0 ==> greedy(model, prompt, n, stop_token).len() == n,
    decreases n,
{
    if n > 0 && prompt.len() > 0 {
        greedy_is_bounded(model, prompt, (n - 1) as nat, stop_token);
        let before = greedy(model, prompt, (n - 1) as nat, stop_token);
        let all = greedy(model, prompt, n, stop_token);
        if stop_token is Some && all.contains(stop_token->0) {
            let i = choose|i: int| 0 <= i < all.len() && all[i] == stop_token->0;
            assert(before[i] == stop_token->0);
        }
    }
}

/// A larger limit only extends what is generated, and changes nothing where
/// the smaller one was not reached.
pub proof fn larger_limit_extends(
    model: spec_fn(Seq<u32>) -> Seq<u32>,
    prompt: Seq<u32>,
    m: nat,
    n: nat,
    stop_token: Option<u32>,
)
    requires
        m <= n,
    ensures
        greedy(model, prompt, m, stop_token).is_prefix_of(greedy(model, prompt, n, stop_token)),
        greedy(model, prompt, m, stop_token).len() < m ==> greedy(model, prompt, n, stop_token)
            == greedy(model, prompt, m, stop_token),
    decreases n - m,
{
    if m < n {
        greedy_is_bounded(model, prompt, m, stop_token);
        larger_limit_extends(model, prompt, m, (n - 1) as nat, stop_token);
        greedy_is_bounded(model, prompt, (n - 1) as nat, stop_token);
    }
}

/// A decoder that is given, position after position, what the model says
/// after the prompt and the tokens so far, gives what the model generates:
/// up to the limit, or for as long as it was given logits.
pub proof fn decoder_is_greedy(
    model: spec_fn(Seq<u32>) -> Seq<u32>,
    prompt: Seq<u32>,
    logits: Seq<Seq<u32>>,
    max_new_tokens: nat,
    stop_token: Option<u32>,
    n: nat,
)
    requires
        prompt.len() > 0,
        n <= logits.len(),
        n <= max_new_tokens,
        forall|i: int|
            0 <= i <= first_stop(logits, stop_token) && i < logits.len() ==> #[trigger] logits[i]
                == model(prompt + generated_from(logits.take(i), max_new_tokens, stop_token)),
    ensures
        generated_from(logits.take(n as int), max_new_tokens, stop_token) == greedy(
            model,
            prompt,
            n,
            stop_token,
        ),
    decreases n,
{
    let now = generated_from(logits.take(n as int), max_new_tokens, stop_token);
    first_stop_of_beginning(logits, n as int, stop_token);
    first_stop_is_first(logits, stop_token);
    if n == 0 {
        assert(now =~= seq![]);
    } else {
        let m = (n - 1) as nat;
        decoder_is_greedy(model, prompt, logits, max_new_tokens, stop_token, m);
        first_stop_of_beginning(logits, m as int, stop_token);
        let before = generated_from(logits.take(m as int), max_new_tokens, stop_token);
        if first_stop(logits, stop_token) >= m {
            assert(logits[m as int] == model(prompt + before));
        }
        assert(now =~= greedy(model, prompt, n, stop_token));
    }
}

/// The keys by which probabilities are ranked, from the highest down.
pub open spec fn falling_keys(probs: Seq<u64>) -> Seq<i64> {
    Seq::new(probs.len(), |i: int| (-rank64(probs[i])) as i64)
}

/// The places of the `k` highest probabilities, the highest first, equal ones
/// as they stand.
pub fn top_k(probs: &Vec<u64>, k: usize) -> (places: Vec<usize>)
    requires
        forall|i: int| 0 <= i < probs@.len() ==> !nan64(#[trigger] probs@[i]),
    ensures
        exists|perm: Seq<usize>| #[trigger]
            is_stable_order(perm, falling_keys(probs@)) && places@ == perm.take(
                if k < probs@.len() {
                    k as int
                } else {
                    probs@.len() as int
                },
            ),
{
    let mut keys: Vec<i64> = Vec::new();
    let mut i: usize = 0;
    while i < probs.len()
        invariant
            i <= probs@.len(),
            keys@ == falling_keys(probs@).take(i as int),
        decreases probs@.len() - i,
    {
        let p: u64 = probs[i];
        let key: i64 = if p >= SIGN64 {
            (p % SIGN64) as i64
        } else {
            -(p as i64)
        };
        keys.push(key);
        i = i + 1;
        assert(keys@ =~= falling_keys(probs@).take(i as int));
    }
    assert(falling_keys(probs@).take(i as int) =~= falling_keys(probs@));
    let perm: Vec<usize> = stable_order(&keys);
    let n: usize = if k < perm.len() {
        k
    } else {
        perm.len()
    };
    let mut places: Vec<usize> = Vec::new();
    let mut j: usize = 0;
    while j < n
        invariant
            j <= n <= perm@.len(),
            places@ == perm@.take(j as int),
        decreases n - j,
    {
        places.push(perm[j]);
        j = j + 1;
        assert(places@ =~= perm@.take(j as int));
    }
    places
}

/// What is ranked higher is not less likely than what is ranked lower or left
/// out.
pub proof fn top_k_is_highest(perm: Seq<usize>, probs: Seq<u64>, i: int, j: int)
    requires
        is_stable_order(perm, falling_keys(probs)),
        0 <= i < j < perm.len(),
    ensures
        rank64(probs[perm[j] as int]) <= rank64(probs[perm[i] as int]),
{
    assert(comes_first(falling_keys(probs), perm[i] as int, perm[j] as int));
}

/// The row of the embedding table that a token stands for.
pub fn embed_row(token: u32, vocab_size: usize) -> (row: usize)
    requires
        vocab_size > 0,
    ensures
        row == token as nat % vocab_size as nat,
        row < vocab_size,
{
    let row: u64 = token as u64 % vocab_size as u64;
    row as usize
}

/// The token that is taken has a logit that none is above, and it is the first
/// such; where no logit is above negative infinity it is the first token.
pub proof fn best_token_is_best(logits: Seq<u32>)
    requires
        0 < logits.len() <= 0x1_0000_0000,
    ensures
        best_token(logits) < logits.len(),
        forall|i: int|
            0 <= i < logits.len() ==> !lt32(logits[best_token(logits) as int], #[trigger] logits[i])
                || !lt32(NEG_INFINITY32, logits[i]),
        forall|i: int|
            0 <= i < best_token(logits) ==> nan32(#[trigger] logits[i]) || lt32(
                logits[i],
                logits[best_token(logits) as int],
            ),
        (forall|i: int| 0 <= i < logits.len() ==> !lt32(NEG_INFINITY32, #[trigger] logits[i]))
            ==> best_token(logits) == 0,
{
    best_is_first_highest(logits);
    best_without_number(logits);
    if best(logits).1 == NEG_INFINITY32 {
        assert(best(logits).0 == 0);
    }
}

/// Only a logit above negative infinity moves the place from the first one.
proof fn best_without_number(logits: Seq<u32>)
    ensures
        best(logits).1 == NEG_INFINITY32 ==> best(logits).0 == 0,
        best(logits).1 != NEG_INFINITY32 ==> 0 <= best(logits).0 < logits.len() && logits[best(
            logits,
        ).0] == best(logits).1 && lt32(NEG_INFINITY32, best(logits).1),
    decreases logits.len(),
{
    if logits.len() > 0 {
        best_without_number(logits.drop_last());
    }
}

/// Token `i` of what a decoder gives is the best one of position `i`; it gives
/// no token of a position from the first on whose best token is the stop token,
/// and one of each before that, up to the limit.
pub proof fn every_token_is_the_best(
    logits: Seq<Seq<u32>>,
    max_new_tokens: usize,
    stop_token: Option<u32>,
    i: int,
)
    requires
        0 <= i < logits.len(),
    ensures
        ({
            let tokens = decoded(logits, max_new_tokens, stop_token).0;
            &&& i < tokens.len() ==> tokens[i] == best_token(logits[i])
            &&& stop_token == Some(best_token(logits[i])) ==> tokens.len() <= i
            &&& i < max_new_tokens && (forall|j: int|
                0 <= j <= i ==> stop_token != Some(best_token(#[trigger] logits[j])))
                ==> i < tokens.len()
        }),
{
    decoder_generates(logits, max_new_tokens, stop_token);
    first_stop_is_first(logits, stop_token);
    let stop = first_stop(logits, stop_token) as int;
    if stop_token == Some(best_token(logits[i])) && stop > i {
        assert(stop_token != Some(best_token(logits[i])));
    }
    if stop <= i {
        assert(stop_token == Some(best_token(logits[stop])));
    }
}

} // verus!
