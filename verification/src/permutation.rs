//! The permutation, with its round constants.
use crate::external::{
    all_canonical, external_input_fits, final_external_rounds, initial_external_rounds,
    instance_constants, lemma_external_input_fits, lemma_reduced_instance,
};
use crate::field::{all_congruent, radix};
use crate::helpers::Poseidon2AVX2Methods;
use crate::internal::internal_rounds;
use crate::layout::{instances, supported, width};
use crate::tensor::Packed64bitM31Tensor;
use core::marker::PhantomData;
use vstd::prelude::*;

verus! {

/// A Poseidon2 permutation of packed field elements.
#[derive(Debug)]
pub struct Poseidon2AVX2<const HEIGHT: usize, P2AVX2> {
    /// The external round constants for the initial set of external rounds.
    initial_external_constants: Vec<Packed64bitM31Tensor<HEIGHT>>,
    /// The internal round constants.
    internal_constants: Vec<u32>,
    /// The external round constants for the final set of external rounds.
    final_external_constants: Vec<Packed64bitM31Tensor<HEIGHT>>,
    _phantom: PhantomData<P2AVX2>,
}

impl<const HEIGHT: usize, P2AVX2> Poseidon2AVX2<HEIGHT, P2AVX2> {
    /// The round constants of the initial external rounds.
    pub closed spec fn initial_constants(self) -> Seq<Packed64bitM31Tensor<HEIGHT>> {
        self.initial_external_constants@
    }

    /// The round constants of the internal rounds.
    pub closed spec fn internal_constants(self) -> Seq<u32> {
        self.internal_constants@
    }

    /// The round constants of the final external rounds.
    pub closed spec fn final_constants(self) -> Seq<Packed64bitM31Tensor<HEIGHT>> {
        self.final_external_constants@
    }
}

impl<const HEIGHT: usize, P2AVX2: Clone> Clone for Poseidon2AVX2<HEIGHT, P2AVX2> {
    fn clone(&self) -> (copy: Self)
        ensures
            copy.initial_constants() == self.initial_constants(),
            copy.internal_constants() == self.internal_constants(),
            copy.final_constants() == self.final_constants(),
    {
        let copy = Self {
            initial_external_constants: self.initial_external_constants.clone(),
            internal_constants: self.internal_constants.clone(),
            final_external_constants: self.final_external_constants.clone(),
            _phantom: PhantomData,
        };
        assert(copy.initial_constants() =~= self.initial_constants());
        assert(copy.internal_constants() =~= self.internal_constants());
        assert(copy.final_constants() =~= self.final_constants());
        copy
    }
}

/// The constants that every instance gets from `samples`, one set for each round.
pub open spec fn sampled_constants<const HEIGHT: usize, P2AVX2: Poseidon2AVX2Methods<HEIGHT>>(
    samples: Seq<P2AVX2::ExternalConstantsInput>,
) -> Seq<Seq<int>> {
    Seq::new(samples.len(), |j: int| P2AVX2::external_constants(samples[j]))
}

impl<const HEIGHT: usize, P2AVX2> Poseidon2AVX2<HEIGHT, P2AVX2> where
    P2AVX2: Poseidon2AVX2Methods<HEIGHT>,
 {
    /// The permutation can run: its round constants are canonical, and it has a final external
    /// round.
    pub open spec fn valid(self) -> bool {
        &&& all_canonical(self.initial_constants(), P2AVX2::field().prime)
        &&& all_canonical(self.final_constants(), P2AVX2::field().prime)
        &&& forall|j: int|
            0 <= j < self.internal_constants().len() ==> #[trigger] self.internal_constants()[j]
                < P2AVX2::field().prime
        &&& self.final_constants().len() > 0
    }

    /// What the permutation makes of instance `k`.
    pub open spec fn permuted_instance(self, k: int, x: Seq<int>) -> Seq<int> {
        P2AVX2::field().poseidon2(
            P2AVX2::INTERNAL_SHIFTS@[0],
            instance_constants(self.initial_constants(), k),
            self.internal_constants(),
            instance_constants(self.final_constants(), k),
            x,
        )
    }

    /// What the permutation makes of `input`: each of its instances is permuted on its own.
    pub open spec fn permuted(self, input: P2AVX2::InputOutput) -> P2AVX2::InputOutput {
        P2AVX2::output_of(
            Seq::new(
                instances(HEIGHT),
                |k: int| self.permuted_instance(k, P2AVX2::input_instances(input)[k]),
            ),
        )
    }

    /// Creates a permutation from its round constants.
    pub fn new(
        initial_external_constants: Vec<Packed64bitM31Tensor<HEIGHT>>,
        internal_constants: Vec<u32>,
        final_external_constants: Vec<Packed64bitM31Tensor<HEIGHT>>,
    ) -> (permutation: Self)
        ensures
            permutation.initial_constants() == initial_external_constants@,
            permutation.internal_constants() == internal_constants@,
            permutation.final_constants() == final_external_constants@,
    {
        Self {
            initial_external_constants,
            internal_constants,
            final_external_constants,
            _phantom: PhantomData,
        }
    }

    /// Converts the external samples from `start` up to `end` into round constants.
    fn external_constants_of(
        samples: &[P2AVX2::ExternalConstantsInput],
        start: usize,
        end: usize,
    ) -> (constants: Vec<Packed64bitM31Tensor<HEIGHT>>) where P2AVX2::ExternalConstantsInput: Copy
        requires
            start <= end <= samples@.len(),
        ensures
            constants@.len() == end - start,
            forall|k: int|
                0 <= k < instances(HEIGHT) ==> #[trigger] instance_constants(constants@, k)
                    == sampled_constants::<HEIGHT, P2AVX2>(
                    samples@.subrange(start as int, end as int),
                ),
            forall|n: int, k: int|
                0 <= n < end - start && 0 <= k < instances(HEIGHT)
                    ==> #[trigger] constants@[n]@[k] == P2AVX2::external_constants(
                    samples@[start + n],
                ),
            all_canonical(constants@, P2AVX2::field().prime),
    {
        let mut constants: Vec<Packed64bitM31Tensor<HEIGHT>> = Vec::new();
        let mut j: usize = start;
        while j < end
            invariant
                start <= j <= end <= samples@.len(),
                constants@.len() == j - start,
                forall|n: int, k: int|
                    0 <= n < j - start && 0 <= k < instances(HEIGHT)
                        ==> #[trigger] constants@[n]@[k] == P2AVX2::external_constants(
                        samples@[start + n],
                    ),
                all_canonical(constants@, P2AVX2::field().prime),
            decreases end - j,
        {
            constants.push(P2AVX2::manipulate_external_constants(samples[j]));
            j += 1;
        }
        proof {
            let chosen = samples@.subrange(start as int, end as int);
            assert forall|k: int| 0 <= k < instances(HEIGHT) implies #[trigger] instance_constants(
                constants@,
                k,
            ) == sampled_constants::<HEIGHT, P2AVX2>(chosen) by {
                assert(instance_constants(constants@, k) =~= sampled_constants::<HEIGHT, P2AVX2>(
                    chosen,
                ));
            }
        }
        constants
    }

    /// Creates a permutation with random round constants.
    ///
    /// The permutation gets `rounds_f` external rounds, one half of them at the beginning and one
    /// half at the end, and `rounds_p` internal rounds. The samples are what a random number
    /// generator has drawn: the first of `external_samples` make the constants of the external
    /// rounds at the beginning, the next make those at the end, and the first of
    /// `internal_samples` make those of the internal rounds.
    pub fn new_from_rng_128(
        rounds_f: usize,
        rounds_p: usize,
        external_samples: &[P2AVX2::ExternalConstantsInput],
        internal_samples: &[P2AVX2::Field],
    ) -> (permutation: Self) where
        P2AVX2::ExternalConstantsInput: Copy,
        P2AVX2::Field: Copy,

        requires
            external_samples@.len() >= 2 * (rounds_f / 2),
            internal_samples@.len() >= rounds_p,
        ensures
            permutation.initial_constants().len() == rounds_f / 2,
            permutation.final_constants().len() == rounds_f / 2,
            forall|k: int|
                0 <= k < instances(HEIGHT) ==> #[trigger] instance_constants(
                    permutation.initial_constants(),
                    k,
                ) == sampled_constants::<HEIGHT, P2AVX2>(
                    external_samples@.subrange(0, (rounds_f / 2) as int),
                ),
            forall|k: int|
                0 <= k < instances(HEIGHT) ==> #[trigger] instance_constants(
                    permutation.final_constants(),
                    k,
                ) == sampled_constants::<HEIGHT, P2AVX2>(
                    external_samples@.subrange((rounds_f / 2) as int, 2 * (rounds_f / 2)),
                ),
            forall|j: int, k: int|
                0 <= j < rounds_f / 2 && 0 <= k < instances(HEIGHT)
                    ==> #[trigger] permutation.initial_constants()[j]@[k]
                    == P2AVX2::external_constants(external_samples@[j]),
            forall|j: int, k: int|
                0 <= j < rounds_f / 2 && 0 <= k < instances(HEIGHT)
                    ==> #[trigger] permutation.final_constants()[j]@[k]
                    == P2AVX2::external_constants(external_samples@[rounds_f / 2 + j]),
            permutation.internal_constants() == Seq::new(
                rounds_p as nat,
                |j: int| P2AVX2::internal_constant(internal_samples@[j]),
            ),
            rounds_f >= 2 ==> permutation.valid(),
    {
        let half_f: usize = rounds_f / 2;
        let initial_external_constants: Vec<Packed64bitM31Tensor<HEIGHT>> =
            Self::external_constants_of(external_samples, 0, half_f);
        let final_external_constants: Vec<Packed64bitM31Tensor<HEIGHT>> =
            Self::external_constants_of(external_samples, half_f, half_f + half_f);
        let mut internal_constants: Vec<u32> = Vec::new();
        let mut j: usize = 0;
        while j < rounds_p
            invariant
                j <= rounds_p <= internal_samples@.len(),
                internal_constants@.len() == j,
                forall|n: int|
                    0 <= n < j ==> #[trigger] internal_constants@[n] == P2AVX2::internal_constant(
                        internal_samples@[n],
                    ) && internal_constants@[n] < P2AVX2::field().prime,
            decreases rounds_p - j,
        {
            internal_constants.push(P2AVX2::manipulate_internal_constants(internal_samples[j]));
            j += 1;
        }
        Self::new(initial_external_constants, internal_constants, final_external_constants)
    }

    /// Permutes `state`.
    #[verifier::spinoff_prover]
    pub fn permute(&self, state: P2AVX2::InputOutput) -> (output: P2AVX2::InputOutput)
        requires
            supported(HEIGHT),
            self.valid(),
        ensures
            output == self.permuted(state),
    {
        let ghost initial = self.initial_constants();
        let ghost fin = self.final_constants();
        let mut internal_rep: Packed64bitM31Tensor<HEIGHT> = P2AVX2::from_input(state);
        let ghost s0 = internal_rep;
        proof {
            P2AVX2::field_facts();
            lemma_initial_input_fits::<HEIGHT, P2AVX2>(initial, s0);
        }
        initial_external_rounds::<HEIGHT, P2AVX2>(
            &mut internal_rep,
            self.initial_external_constants.as_slice(),
        );
        let ghost s1 = internal_rep;
        proof {
            lemma_initial_output_below::<HEIGHT, P2AVX2>(initial, s0, s1);
        }
        internal_rounds::<HEIGHT, P2AVX2>(&mut internal_rep, self.internal_constants.as_slice());
        let ghost s2 = internal_rep;
        proof {
            assert(fin[0].all_below(P2AVX2::field().prime));
            if self.internal_constants().len() > 0 {
                s2.lemma_below_greater(2 * P2AVX2::field().prime, radix());
            }
            lemma_final_input_fits::<HEIGHT, P2AVX2>(fin[0], s2);
        }
        final_external_rounds::<HEIGHT, P2AVX2>(
            &mut internal_rep,
            self.final_external_constants.as_slice(),
        );
        let ghost s3 = internal_rep;
        proof {
            s3.lemma_below_greater(49 * 2 * radix(), radix() * P2AVX2::field().prime);
        }
        P2AVX2::full_reduce(&mut internal_rep);
        proof {
            let out = Seq::new(
                instances(HEIGHT),
                |k: int| self.permuted_instance(k, P2AVX2::input_instances(state)[k]),
            );
            assert forall|k: int| 0 <= k < instances(HEIGHT) implies #[trigger] internal_rep@[k]
                == out[k] by {
                assert(s1@[k] == P2AVX2::field().initial_rounds(
                    instance_constants(initial, k),
                    s0@[k],
                ));
                assert(all_congruent(
                    s2@[k],
                    P2AVX2::field().internal_rounds(
                        P2AVX2::INTERNAL_SHIFTS@[0],
                        self.internal_constants(),
                        s1@[k],
                    ),
                    P2AVX2::field().prime,
                ));
                assert(all_congruent(
                    s3@[k],
                    P2AVX2::field().final_rounds(instance_constants(fin, k), s2@[k]),
                    P2AVX2::field().prime,
                ));
                lemma_reduced_instance(P2AVX2::field(), s3, internal_rep, k);
                lemma_rounds_permute(*self, k, s0@[k], s2@[k], s3@[k]);
            }
            assert(internal_rep@ =~= out);
        }
        P2AVX2::to_output(internal_rep)
    }

    /// Permutes `input` in place.
    pub fn permute_mut(&self, input: &mut P2AVX2::InputOutput) where P2AVX2::InputOutput: Copy
        requires
            supported(HEIGHT),
            self.valid(),
        ensures
            *final(input) == self.permuted(*old(input)),
    {
        let output: P2AVX2::InputOutput = self.permute(*input);
        *input = output;
    }
}

/// The initial external rounds can take what comes in.
proof fn lemma_initial_input_fits<const HEIGHT: usize, P2AVX2: Poseidon2AVX2Methods<HEIGHT>>(
    initial: Seq<Packed64bitM31Tensor<HEIGHT>>,
    state: Packed64bitM31Tensor<HEIGHT>,
)
    requires
        supported(HEIGHT),
        all_canonical(initial, P2AVX2::field().prime),
        state.all_below(radix()),
    ensures
        forall|k: int|
            0 <= k < instances(HEIGHT) ==> external_input_fits(
                P2AVX2::field(),
                if initial.len() > 0 {
                    initial[0]@[k]
                } else {
                    Seq::new(width(HEIGHT), |i: int| 0)
                },
                #[trigger] state@[k],
            ),
{
    let field = P2AVX2::field();
    P2AVX2::field_facts();
    state.lemma_all_below(radix());
    if initial.len() > 0 {
        assert(initial[0].all_below(field.prime));
        initial[0].lemma_all_below(field.prime);
    }
    assert forall|k: int| 0 <= k < instances(HEIGHT) implies external_input_fits(
        field,
        if initial.len() > 0 {
            initial[0]@[k]
        } else {
            Seq::new(width(HEIGHT), |i: int| 0)
        },
        #[trigger] state@[k],
    ) by {
        let first = if initial.len() > 0 {
            initial[0]@[k]
        } else {
            Seq::new(width(HEIGHT), |i: int| 0)
        };
        lemma_external_input_fits(field, first, state@[k]);
    }
}

/// The initial external rounds return what the internal rounds can take.
proof fn lemma_initial_output_below<const HEIGHT: usize, P2AVX2: Poseidon2AVX2Methods<HEIGHT>>(
    initial: Seq<Packed64bitM31Tensor<HEIGHT>>,
    before: Packed64bitM31Tensor<HEIGHT>,
    after: Packed64bitM31Tensor<HEIGHT>,
)
    requires
        supported(HEIGHT),
        forall|k: int|
            0 <= k < instances(HEIGHT) ==> #[trigger] after@[k] == P2AVX2::field().initial_rounds(
                instance_constants(initial, k),
                before@[k],
            ),
    ensures
        after.all_below(radix()),
{
    P2AVX2::field_facts();
    assert forall|k: int, i: int|
        0 <= k < instances(HEIGHT) && 0 <= i < width(HEIGHT) implies #[trigger] after@[k][i]
        < radix() by {
        assert(after@[k] == P2AVX2::field().initial_rounds(
            instance_constants(initial, k),
            before@[k],
        ));
    }
    after.lemma_all_below(radix());
}

/// The final external rounds can take what the internal rounds return.
proof fn lemma_final_input_fits<const HEIGHT: usize, P2AVX2: Poseidon2AVX2Methods<HEIGHT>>(
    first: Packed64bitM31Tensor<HEIGHT>,
    state: Packed64bitM31Tensor<HEIGHT>,
)
    requires
        supported(HEIGHT),
        first.all_below(P2AVX2::field().prime),
        state.all_below(radix()),
    ensures
        forall|k: int, i: int|
            0 <= k < instances(HEIGHT) && 0 <= i < width(HEIGHT) ==> #[trigger] state@[k][i]
                + first@[k][i] < radix() * P2AVX2::field().prime,
{
    let field = P2AVX2::field();
    P2AVX2::field_facts();
    state.lemma_all_below(radix());
    first.lemma_all_below(field.prime);
    assert forall|k: int, i: int|
        0 <= k < instances(HEIGHT) && 0 <= i < width(HEIGHT) implies #[trigger] state@[k][i]
        + first@[k][i] < radix() * field.prime by {
        assert(state@[k][i] < radix());
        assert(first@[k][i] < field.prime);
    }
}

/// The rounds, one set after the other and each only modulo the prime, make the permutation of one
/// instance.
proof fn lemma_rounds_permute<const HEIGHT: usize, P2AVX2: Poseidon2AVX2Methods<HEIGHT>>(
    permutation: Poseidon2AVX2<HEIGHT, P2AVX2>,
    k: int,
    x: Seq<int>,
    y: Seq<int>,
    z: Seq<int>,
)
    requires
        permutation.final_constants().len() > 0,
        y.len() % 4 == 0,
        all_congruent(
            y,
            P2AVX2::field().internal_rounds(
                P2AVX2::INTERNAL_SHIFTS@[0],
                permutation.internal_constants(),
                P2AVX2::field().initial_rounds(
                    instance_constants(permutation.initial_constants(), k),
                    x,
                ),
            ),
            P2AVX2::field().prime,
        ),
        all_congruent(
            z,
            P2AVX2::field().final_rounds(instance_constants(permutation.final_constants(), k), y),
            P2AVX2::field().prime,
        ),
    ensures
        P2AVX2::field().reduce_all(z) == permutation.permuted_instance(k, x),
{
    let field = P2AVX2::field();
    P2AVX2::field_facts();
    let a = instance_constants(permutation.initial_constants(), k);
    let b = instance_constants(permutation.final_constants(), k);
    let w = field.internal_rounds(
        P2AVX2::INTERNAL_SHIFTS@[0],
        permutation.internal_constants(),
        field.initial_rounds(a, x),
    );
    field.lemma_final_rounds_congruent(b, y, w);
    field.lemma_reduce_all_congruent(z, field.final_rounds(b, w));
}

} // verus!
