//! The ledger of applied migrations: one row per applied migration, in
//! insertion order, oldest first.  The engine treats it as a cursor into
//! the sorted migration file list: `up` appends to it, `down` deletes from
//! its end by name.

use crate::errors::MigError;
use vstd::prelude::*;

verus! {

/// The applied-migrations table, modelled as the sequence of its rows'
/// names in insertion order.
pub struct Ledger {
    rows: Vec<String>,
}

impl View for Ledger {
    type V = Seq<Seq<char>>;

    closed spec fn view(&self) -> Seq<Seq<char>> {
        self.rows.deep_view()
    }
}

impl Ledger {
    /// A ledger with no applied migrations.
    pub fn new() -> (r: Ledger)
        ensures
            r@ == Seq::<Seq<char>>::empty(),
    {
        let r = Ledger { rows: Vec::new() };
        assert(r@ =~= Seq::<Seq<char>>::empty());
        r
    }

    /// A ledger holding the given rows, oldest first.
    pub fn from_rows(rows: Vec<String>) -> (r: Ledger)
        ensures
            r@ == rows.deep_view(),
    {
        Ledger { rows }
    }

    /// How many migrations are applied: the orchestrator's cursor.
    pub fn count(&self) -> (r: usize)
        ensures
            r == self@.len(),
    {
        self.rows.len()
    }

    /// The name of the most recently applied migration; there is none on a
    /// fresh ledger.
    pub fn last_name(&self) -> (r: Result<String, MigError>)
        ensures
            match r {
                Ok(n) => self@.len() > 0 && n@ == self@.last(),
                Err(e) => e == MigError::NotFound && self@.len() == 0,
            },
    {
        if self.rows.len() == 0 {
            Err(MigError::NotFound)
        } else {
            Ok(self.rows[self.rows.len() - 1].clone())
        }
    }

    /// The rows, oldest first.
    pub fn rows(&self) -> (r: &Vec<String>)
        ensures
            r.deep_view() == self@,
    {
        &self.rows
    }

    /// Appends a row for a migration that was just applied.
    pub fn insert_row(&mut self, name: String)
        ensures
            final(self)@ == old(self)@.push(name@),
    {
        self.rows.push(name);
        assert(self@ =~= old(self)@.push(name@));
    }

    /// Deletes every row whose name is among `names`.
    pub fn delete_rows(&mut self, names: &Vec<String>)
        ensures
            final(self)@ == spec_remove_names(old(self)@, names.deep_view()),
    {
        let ghost before = self@;
        let ghost gone = names.deep_view();
        let mut kept: Vec<String> = Vec::new();
        proof {
            assert(kept.deep_view() =~= spec_remove_names(before.take(0), gone));
        }
        let mut i: usize = 0;
        while i < self.rows.len()
            invariant
                i <= self.rows.len(),
                before == self.rows.deep_view(),
                gone == names.deep_view(),
                kept.deep_view() == spec_remove_names(before.take(i as int), gone),
            decreases self.rows.len() - i,
        {
            let row = &self.rows[i];
            let dropped = contains_name(names, row);
            if !dropped {
                kept.push(row.clone());
            }
            proof {
                let t = before.take(i + 1);
                assert(t.drop_last() =~= before.take(i as int));
                assert(t.last() == before[i as int]);
                assert(before[i as int] == row@);
                if !dropped {
                    assert(kept.deep_view() =~= spec_remove_names(before.take(i as int),
                        gone,
                    ).push(row@));
                }
            }
            i = i + 1;
        }
        assert(before.take(self.rows.len() as int) =~= before);
        self.rows = kept;
    }
}

/// Whether one of `names` equals `row`.
fn contains_name(names: &Vec<String>, row: &String) -> (r: bool)
    ensures
        r == names.deep_view().contains(row@),
{
    let mut j: usize = 0;
    while j < names.len()
        invariant
            j <= names.len(),
            forall|k: int| 0 <= k < j ==> names.deep_view()[k] != row@,
        decreases names.len() - j,
    {
        if names[j].eq(row) {
            assert(names.deep_view()[j as int] == row@);
            return true;
        }
        j = j + 1;
    }
    assert(forall|k: int| 0 <= k < names.deep_view().len() ==> names.deep_view()[k] != row@);
    false
}

/// The rows that survive deleting every name in `names`, in their old
/// order.
pub open spec fn spec_remove_names(rows: Seq<Seq<char>>, names: Seq<Seq<char>>) -> Seq<Seq<char>>
    decreases rows.len(),
{
    if rows.len() == 0 {
        Seq::empty()
    } else {
        let rest = spec_remove_names(rows.drop_last(), names);
        if names.contains(rows.last()) {
            rest
        } else {
            rest.push(rows.last())
        }
    }
}

/// Deleting names that occur in no row leaves the rows unchanged.
pub proof fn lemma_remove_absent(rows: Seq<Seq<char>>, names: Seq<Seq<char>>)
    requires
        forall|i: int| 0 <= i < rows.len() ==> !names.contains(#[trigger] rows[i]),
    ensures
        spec_remove_names(rows, names) == rows,
    decreases rows.len(),
{
    if rows.len() == 0 {
        assert(spec_remove_names(rows, names) =~= rows);
    } else {
        assert(forall|i: int|
            0 <= i < rows.len() - 1 ==> #[trigger] rows.drop_last()[i] == rows[i]);
        lemma_remove_absent(rows.drop_last(), names);
        assert(!names.contains(rows.last()));
        assert(rows.drop_last().push(rows.last()) =~= rows);
    }
}

/// Deleting the names of an appended block removes exactly that block.
pub proof fn lemma_remove_appended(rows: Seq<Seq<char>>, block: Seq<Seq<char>>, names: Seq<
    Seq<char>,
>)
    requires
        forall|i: int| 0 <= i < rows.len() ==> !names.contains(#[trigger] rows[i]),
        forall|i: int| 0 <= i < block.len() ==> names.contains(#[trigger] block[i]),
    ensures
        spec_remove_names(rows + block, names) == rows,
    decreases block.len(),
{
    if block.len() == 0 {
        assert(rows + block =~= rows);
        lemma_remove_absent(rows, names);
    } else {
        let whole = rows + block;
        assert(whole.len() > 0);
        assert(whole.last() == block.last());
        assert(names.contains(whole.last()));
        assert(whole.drop_last() =~= rows + block.drop_last());
        assert(forall|i: int|
            0 <= i < block.len() - 1 ==> #[trigger] block.drop_last()[i] == block[i]);
        lemma_remove_appended(rows, block.drop_last(), names);
    }
}

/// A sequence and its reverse contain the same elements.
pub proof fn lemma_reverse_contains(s: Seq<Seq<char>>, x: Seq<char>)
    ensures
        s.reverse().contains(x) == s.contains(x),
{
    if s.contains(x) {
        let i = choose|i: int| 0 <= i < s.len() && s[i] == x;
        assert(s.reverse()[s.len() - 1 - i] == x);
    }
    if s.reverse().contains(x) {
        let i = choose|i: int| 0 <= i < s.reverse().len() && s.reverse()[i] == x;
        assert(s[s.len() - 1 - i] == x);
    }
}

/// Applying a batch of fresh names and then deleting those same names, most
/// recent first, leaves the ledger exactly as it was: the round trip
/// removes the appended rows and only them.
pub proof fn lemma_up_then_down_restores(rows: Seq<Seq<char>>, names: Seq<Seq<char>>)
    requires
        forall|i: int| 0 <= i < rows.len() ==> !names.contains(#[trigger] rows[i]),
    ensures
        spec_remove_names(rows + names, names.reverse()) == rows,
{
    assert forall|i: int| 0 <= i < rows.len() implies !names.reverse().contains(
        #[trigger] rows[i],
    ) by {
        lemma_reverse_contains(names, rows[i]);
    }
    assert forall|i: int| 0 <= i < names.len() implies names.reverse().contains(
        #[trigger] names[i],
    ) by {
        lemma_reverse_contains(names, names[i]);
    }
    lemma_remove_appended(rows, names, names.reverse());
}

} // verus!
