//! The audit of the store.

use super::Store;
use crate::error::EngineError;
use crate::integrity::{
    egress_entries, is_consistent, lemma_egress_units, product_consistent, sale_entries, sold_units,
};
use crate::ledger::{balance, egress_total, lemma_total_moved_bounds, quantities_positive};
use crate::log::{lemma_len_below_next_id, MAX_ID};
use crate::model::MovementKind;
use crate::reporting::{lemma_movement_units, movement_entries};
use crate::tally::{
    count_for, find_group, groups, lemma_groups, lemma_keys_seen, lemma_ranked_groups,
    lemma_sums_bounds, lemma_sums_fit, ranked, sheet, tally, Entry, Group, Ranking,
};
use vstd::prelude::*;

verus! {

impl Store {
    /// The units that the egress movements take out of every product
    /// that the ledger mentions, smallest product id first.
    fn egress_sheet(&self) -> (list: Vec<Group>)
        requires
            self.wf(),
        ensures
            list@ == ranked(groups(egress_entries(self.movements())), Ranking::KeyAscending),
            forall|i: int, j: int| 0 <= i < j < list@.len() ==> list@[i].key < list@[j].key,
    {
        let log = self.movements.rows();
        let mut entries: Vec<Entry> = Vec::new();
        let mut i: usize = 0;
        proof {
            lemma_len_below_next_id(self.movements(), self.next_movement_id());
        }
        while i < log.len()
            invariant
                0 <= i <= log.len(),
                log@ == self.movements(),
                log@.len() <= MAX_ID,
                entries@ == egress_entries(log@.take(i as int)),
            decreases log.len() - i,
        {
            let movement = &log[i];
            let units = match movement.kind {
                MovementKind::Ingress => 0,
                MovementKind::Egress => movement.quantity,
            };
            entries.push(Entry { key: movement.product_id, units, amount: 0 });
            assert(log@.take(i + 1) == log@.take(i as int).push(*movement));
            assert(entries@ == egress_entries(log@.take(i + 1)));
            i += 1;
        }
        assert(log@.take(log@.len() as int) == log@);
        sheet(&entries)
    }

    /// The units sold of every product that has a sale, in the order in
    /// which the products were first sold.
    fn sold_sums(&self) -> (sums: Vec<Group>)
        requires
            self.wf(),
        ensures
            sums@ == groups(sale_entries(self.sales())),
    {
        let sales = self.sales.rows();
        let mut entries: Vec<Entry> = Vec::new();
        let mut i: usize = 0;
        proof {
            lemma_len_below_next_id(self.sales(), self.next_sale_id());
        }
        while i < sales.len()
            invariant
                0 <= i <= sales.len(),
                sales@ == self.sales(),
                sales@.len() <= MAX_ID,
                entries@ == sale_entries(sales@.take(i as int)),
            decreases sales.len() - i,
        {
            let sale = &sales[i];
            entries.push(
                Entry { key: sale.product_id, units: sale.quantity, amount: sale.sale_price },
            );
            assert(sales@.take(i + 1) == sales@.take(i as int).push(*sale));
            assert(entries@ == sale_entries(sales@.take(i + 1)));
            i += 1;
        }
        assert(sales@.take(sales@.len() as int) == sales@);
        tally(&entries)
    }

    /// Checks that ledger and sales agree: no product has a balance
    /// below zero, and of no product more units were sold than its
    /// egress movements took out. A store that fails the check holds
    /// movements or sales that did not come from a sale going through:
    /// the error is [`EngineError::ConsistencyFault`], and nothing is
    /// corrected.
    pub fn audit(&self) -> (result: Result<(), EngineError>)
        requires
            self.wf(),
        ensures
            result == if is_consistent(self.movements(), self.sales()) {
                Ok::<(), EngineError>(())
            } else {
                Err::<(), EngineError>(EngineError::ConsistencyFault)
            },
    {
        let ghost log = self.movements();
        let ghost sales = self.sales();
        proof {
            lemma_len_below_next_id(self.movements(), self.next_movement_id());
            lemma_len_below_next_id(self.sales(), self.next_sale_id());
        }
        let balances = self.balance_sheet();
        let mut i: usize = 0;
        while i < balances.len()
            invariant
                0 <= i <= balances.len(),
                log == self.movements(),
                sales == self.sales(),
                log.len() <= MAX_ID,
                quantities_positive(log),
                balances@ == ranked(groups(movement_entries(log)), Ranking::KeyAscending),
                forall|j: int| 0 <= j < i ==> (#[trigger] balances@[j]).units >= 0,
            decreases balances.len() - i,
        {
            if balances[i].units < 0 {
                proof {
                    let product_id = balances@[i as int].key;
                    lemma_ranked_groups(movement_entries(log), Ranking::KeyAscending, product_id);
                    lemma_movement_units(log, product_id);
                    assert(!product_consistent(log, sales, product_id));
                }
                return Err(EngineError::ConsistencyFault);
            }
            i += 1;
        }
        let taken = self.egress_sheet();
        let sold = self.sold_sums();
        let mut k: usize = 0;
        while k < sold.len()
            invariant
                0 <= k <= sold.len(),
                log == self.movements(),
                sales == self.sales(),
                log.len() <= MAX_ID,
                sales.len() <= MAX_ID,
                sold@ == groups(sale_entries(sales)),
                balances@ == ranked(groups(movement_entries(log)), Ranking::KeyAscending),
                forall|j: int| 0 <= j < balances@.len() ==> (#[trigger] balances@[j]).units >= 0,
                taken@ == ranked(groups(egress_entries(log)), Ranking::KeyAscending),
                forall|a: int, b: int| 0 <= a < b < taken@.len() ==> taken@[a].key < taken@[b].key,
                forall|j: int|
                    0 <= j < k ==> sold_units(sales, (#[trigger] sold@[j]).key) <= egress_total(
                        log,
                        sold@[j].key,
                    ),
            decreases sold.len() - k,
        {
            let group = sold[k];
            proof {
                lemma_ranked_groups(egress_entries(log), Ranking::KeyAscending, group.key);
                lemma_egress_units(log, group.key);
                lemma_groups(sale_entries(sales));
                lemma_sums_fit(sale_entries(sales), group.key);
                assert(sale_entries(sales).len() == sales.len());
                assert(egress_entries(log).len() == log.len());
            }
            let covered = match find_group(&taken, group.key) {
                Some(at) => taken[at].units,
                None => 0,
            };
            if group.units > covered {
                proof {
                    assert(!product_consistent(log, sales, group.key));
                }
                return Err(EngineError::ConsistencyFault);
            }
            k += 1;
        }
        proof {
            assert forall|product_id: i64| #[trigger]
                product_consistent(log, sales, product_id) by {
                lemma_ranked_groups(movement_entries(log), Ranking::KeyAscending, product_id);
                lemma_movement_units(log, product_id);
                assert(movement_entries(log).len() == log.len());
                lemma_groups(sale_entries(sales));
                lemma_keys_seen(sale_entries(sales));
                lemma_total_moved_bounds(log, product_id, MovementKind::Egress);
                assert(balance(log, product_id) >= 0) by {
                    if exists|i: int|
                        0 <= i < balances@.len() && (#[trigger] balances@[i]).key == product_id {
                        let i = choose|i: int|
                            0 <= i < balances@.len() && (#[trigger] balances@[i]).key
                                == product_id;
                        assert(balances@[i].units >= 0);
                    }
                }
                if count_for(sale_entries(sales), product_id) > 0 {
                    let j = choose|j: int|
                        0 <= j < sold@.len() && (#[trigger] sold@[j]).key == product_id;
                    assert(sold_units(sales, sold@[j].key) <= egress_total(log, sold@[j].key));
                } else {
                    lemma_sums_bounds(sale_entries(sales), product_id);
                }
            }
        }
        Ok(())
    }
}

} // verus!
