//! A value and its limbs, laid out with the lookup chip and checked.

use crate::chips::overflow_check_v2::{
    known, lemma_assigned_satisfied, lemma_installed_governs, lemma_limb_out_of_range,
    missing_before, OverflowCheckV2Config, OverflowChipV2, MAX_TABLE_BITS,
};
use crate::chips::utils::{check_limbs, reconstruction, valid_limbs};
use crate::circuit::{AdviceColumn, ConstraintSystem, Description, System};
use crate::dev::{first_failure, satisfied, verify, Failure};
use crate::field::Felt;
use crate::layouter::{
    column_values, lemma_columns_fine, Component, Error, ErrorKind, Layouter, Trace,
};
use vstd::arithmetic::power2::pow2;
use vstd::prelude::*;

verus! {

/// A value, and the limbs that are to stand for it, most significant first.
#[derive(Debug)]
pub struct OverflowCheckV2Circuit {
    pub value: Option<Felt>,
    pub decomposed_values: Vec<Option<Felt>>,
}

/// The first `n` values are all given.
pub proof fn lemma_all_given(given: Seq<Option<Felt>>, n: nat)
    requires
        n <= given.len(),
        forall|i: int| 0 <= i < given.len() ==> (#[trigger] given[i]) is Some,
    ensures
        missing_before(given, n) is None,
    decreases n,
{
    if n > 0 {
        lemma_all_given(given, (n - 1) as nat);
    }
}

impl OverflowCheckV2Circuit {
    /// The value and all limbs are given, as many limbs as the chip has
    /// limb columns.
    pub open spec fn given(self, config: OverflowCheckV2Config) -> bool {
        &&& self.value is Some
        &&& self.decomposed_values@.len() == config.decomposed_values@.len()
        &&& forall|i: int|
            0 <= i < self.decomposed_values@.len() ==> (#[trigger] self.decomposed_values@[i])
                is Some
    }

    /// Every limb is below two to the power of the limb width, and the
    /// limbs stand for the value.
    pub open spec fn within_range(self, config: OverflowCheckV2Config) -> bool {
        &&& self.given(config)
        &&& forall|i: int|
            0 <= i < self.decomposed_values@.len() ==> #[trigger] known(
                self.decomposed_values@,
            )[i] < pow2(config.limb_bits as nat)
        &&& self.value.unwrap()@ == reconstruction(
            known(self.decomposed_values@),
            config.limb_bits as nat,
        )
    }

    /// Some limb is not below two to the power of the limb width.
    pub open spec fn out_of_range(self, config: OverflowCheckV2Config) -> bool {
        exists|i: int|
            0 <= i < self.decomposed_values@.len() && #[trigger] known(self.decomposed_values@)[i]
                >= pow2(config.limb_bits as nat)
    }

    /// What laying out the row comes to on a register file `t`: the fault
    /// that prevents it, or the register file with the row.
    pub open spec fn synthesized(self, config: OverflowCheckV2Config, t: Trace) -> Result<
        Trace,
        Error,
    > {
        if !config.valid() {
            Err(
                Error {
                    component: Component::LookupRange,
                    kind: ErrorKind::InvalidParameters,
                    column: 0,
                    row: 0,
                },
            )
        } else {
            match config.assign_fault(t, self.value, self.decomposed_values@) {
                Some(e) => Err(e),
                None => Ok(config.assigned(t, self.value.unwrap()@, known(self.decomposed_values@))),
            }
        }
    }

    /// A value column, `limbs` limb columns, a public column, a table
    /// column and two selectors for the chip, and the chip configured in
    /// them for limbs of `limb_bits` bits. Fails, changing nothing, if the
    /// limb width and the limb count do not go together or the width is
    /// above `MAX_TABLE_BITS`.
    pub fn configure(meta: &mut ConstraintSystem, limb_bits: u32, limbs: usize) -> (r: Result<
        OverflowCheckV2Config,
        Error,
    >)
        requires
            old(meta)@.num_advice + limbs + 1 <= usize::MAX,
            old(meta)@.num_selectors + 2 <= usize::MAX,
            old(meta)@.num_instance < usize::MAX,
            old(meta)@.num_tables < usize::MAX,
        ensures
            r is Ok <==> valid_limbs(limb_bits as nat, limbs as nat) && limb_bits <= MAX_TABLE_BITS,
            r matches Ok(config) ==> {
                &&& config.valid()
                &&& config.limb_bits == limb_bits
                &&& config.decomposed_values@.len() == limbs
                &&& final(meta)@ == config.installed(
                    System {
                        num_advice: (old(meta)@.num_advice + limbs + 1) as nat,
                        num_selectors: old(meta)@.num_selectors + 2,
                        num_instance: old(meta)@.num_instance + 1,
                        num_tables: old(meta)@.num_tables + 1,
                        ..old(meta)@
                    },
                )
                &&& config.fits(
                    final(meta)@.num_advice,
                    final(meta)@.num_selectors,
                    final(meta)@.num_tables,
                )
                &&& old(meta)@.numbered() ==> config.governs(final(meta)@) && config.looked_up_in(
                    final(meta)@,
                    old(meta)@.lookups.len() as int,
                )
            },
            r matches Err(e) ==> *final(meta) == *old(meta) && e == (Error {
                component: Component::LookupRange,
                kind: ErrorKind::InvalidParameters,
                column: 0,
                row: 0,
            }),
    {
        if !(check_limbs(limb_bits, limbs) && limb_bits <= MAX_TABLE_BITS) {
            return Err(
                Error {
                    component: Component::LookupRange,
                    kind: ErrorKind::InvalidParameters,
                    column: 0,
                    row: 0,
                },
            );
        }
        let ghost first = old(meta)@.num_advice;
        let value = meta.advice_column();
        let mut columns: Vec<AdviceColumn> = Vec::new();
        let mut i: usize = 0;
        while i < limbs
            invariant
                i <= limbs,
                first + limbs + 1 <= usize::MAX,
                first == old(meta)@.num_advice,
                columns@.len() == i,
                forall|j: int| 0 <= j < i ==> (#[trigger] columns@[j]).index == first + 1 + j,
                meta@ == (System { num_advice: (first + 1 + i) as nat, ..old(meta)@ }),
            decreases limbs - i,
        {
            let column = meta.advice_column();
            columns.push(column);
            i = i + 1;
        }
        let instance = meta.instance_column();
        let table = meta.lookup_table_column();
        let simple_selector = meta.selector();
        let complex_selector = meta.selector();
        let ghost before = meta@;
        let config = match OverflowChipV2::configure(
            meta,
            limb_bits,
            value,
            columns,
            instance,
            table,
            simple_selector,
            complex_selector,
        ) {
            Ok(config) => config,
            Err(e) => {
                return Err(e);
            },
        };
        proof {
            let all = config.columns();
            assert forall|j: int| 0 <= j < all.len() implies (#[trigger] all[j]).index == first
                + j by {
                if j > 0 {
                    assert(all[j] == config.decomposed_values@[j - 1]);
                }
            }
            if old(meta)@.numbered() {
                assert forall|g: int| 0 <= g < before.gates.len() implies
                    (#[trigger] before.gates[g]).selector != config.simple_selector
                    && before.gates[g].selector != config.complex_selector by {
                    assert(before.gates[g] == old(meta)@.gates[g]);
                }
                assert forall|l: int| 0 <= l < before.lookups.len() implies
                    (#[trigger] before.lookups[l]).selector != config.simple_selector
                    && before.lookups[l].selector != config.complex_selector by {
                    assert(before.lookups[l] == old(meta)@.lookups[l]);
                }
                lemma_installed_governs(config, before);
            }
        }
        Ok(config)
    }

    /// Lays the row out on a register file of its own, with the public
    /// inputs given, and checks it against the description. On a
    /// description in which the chip fits and governs its selectors, limbs
    /// within range that stand for the value always pass; on one that has
    /// the lookup of the chip, a limb out of range never does.
    pub fn run(
        &self,
        description: &Description,
        config: OverflowCheckV2Config,
        instance: Vec<Vec<Felt>>,
    ) -> (r: Result<Layouter, Failure>)
        ensures
            ({
                let start = Trace::start(description@, column_values(instance@));
                let row = self.synthesized(config, start);
                &&& match r {
                    Ok(layouter) => layouter.wf() && row == Ok::<Trace, Error>(layouter@)
                        && satisfied(description@, layouter@),
                    Err(Failure::Layout(e)) => row == Err::<Trace, Error>(e),
                    Err(Failure::Constraint(f)) => row is Ok && first_failure(
                        description@,
                        row->Ok_0,
                        f,
                    ),
                }
                &&& config.valid() && config.governs(description@) && config.fits(
                    description@.num_advice,
                    description@.num_selectors,
                    description@.num_tables,
                ) && self.within_range(config) ==> r is Ok
                &&& (exists|l: int| #[trigger] config.looked_up_in(description@, l))
                    && self.out_of_range(config) ==> r is Err
            }),
    {
        let ghost start = Trace::start(description@, column_values(instance@));
        let ghost given = self.decomposed_values@;
        let ghost fits = config.fits(
            description@.num_advice,
            description@.num_selectors,
            description@.num_tables,
        );
        let ghost governs = config.governs(description@);
        let ghost looked_up = exists|l: int| #[trigger] config.looked_up_in(description@, l);
        let ghost settings = config;
        let chip = match OverflowChipV2::construct(config) {
            Ok(chip) => chip,
            Err(e) => {
                return Err(Failure::Layout(e));
            },
        };
        let mut layouter = Layouter::new(description, instance);
        let mut limbs: Vec<Option<Felt>> = Vec::new();
        let mut i: usize = 0;
        while i < self.decomposed_values.len()
            invariant
                i <= self.decomposed_values@.len(),
                limbs@ == self.decomposed_values@.take(i as int),
            decreases self.decomposed_values@.len() - i,
        {
            limbs.push(self.decomposed_values[i]);
            assert(limbs@ =~= self.decomposed_values@.take(i + 1));
            i = i + 1;
        }
        assert(limbs@ =~= given);
        proof {
            layouter.lemma_view_wf();
            assert(satisfied(description@, start));
            if governs && fits && self.within_range(settings) {
                lemma_columns_fine(start, Component::LookupRange, settings.columns());
                lemma_all_given(given, given.len());
                lemma_assigned_satisfied(settings, description@, start, self.value, given);
            }
            if looked_up && self.out_of_range(settings) && settings.assign_fault(
                start,
                self.value,
                given,
            ) is None {
                let l = choose|l: int| #[trigger] settings.looked_up_in(description@, l);
                let k = choose|k: int|
                    0 <= k < given.len() && #[trigger] known(given)[k] >= pow2(
                        settings.limb_bits as nat,
                    );
                lemma_limb_out_of_range(settings, description@, start, self.value, given, l, k);
            }
        }
        match chip.assign(&mut layouter, self.value, limbs) {
            Err(e) => Err(Failure::Layout(e)),
            Ok(_) => match verify(description, &layouter) {
                Ok(()) => Ok(layouter),
                Err(f) => Err(Failure::Constraint(f)),
            },
        }
    }
}

} // verus!
