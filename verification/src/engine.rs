//! The migration orchestrator: choosing the batch an `up` or `down`
//! command processes, and the all-or-nothing transaction that applies or
//! reverts it against the ledger.

use crate::catalog::{
    filter_direction, is_direction_file, migration_name, spec_migration_name, Direction,
};
use crate::errors::MigError;
use crate::ledger::{spec_remove_names, Ledger};
use crate::text::{split_chars, split_str};
use vstd::prelude::*;

verus! {

/// The fragments of `frags` that are not empty, in order.
pub open spec fn nonempty_fragments(frags: Seq<Seq<char>>) -> Seq<Seq<char>>
    decreases frags.len(),
{
    if frags.len() == 0 {
        Seq::empty()
    } else {
        let rest = nonempty_fragments(frags.drop_last());
        if frags.last().len() > 0 {
            rest.push(frags.last())
        } else {
            rest
        }
    }
}

/// The statements of a migration body: what stands between the `;`
/// separators, with empty fragments dropped.
pub open spec fn spec_statements(sql: Seq<char>) -> Seq<Seq<char>> {
    nonempty_fragments(split_chars(sql, ';'))
}

/// Splits a migration body into the statements a backend executes one by
/// one inside the batch transaction.
pub fn split_statements(sql: &str) -> (r: Vec<String>)
    ensures
        r.deep_view() == spec_statements(sql@),
{
    let frags = split_str(sql, ';');
    let ghost all = frags.deep_view();
    let mut out: Vec<String> = Vec::new();
    proof {
        assert(out.deep_view() =~= nonempty_fragments(all.take(0)));
    }
    let mut i: usize = 0;
    while i < frags.len()
        invariant
            i <= frags.len(),
            all == frags.deep_view(),
            out.deep_view() == nonempty_fragments(all.take(i as int)),
        decreases frags.len() - i,
    {
        let frag = &frags[i];
        let keep = frag.as_str().unicode_len() > 0;
        if keep {
            out.push(frag.clone());
        }
        proof {
            let t = all.take(i + 1);
            assert(t.drop_last() =~= all.take(i as int));
            assert(t.last() == all[i as int]);
            assert(all[i as int] == frag@);
            if keep {
                assert(out.deep_view() =~= nonempty_fragments(all.take(i as int)).push(frag@));
            }
        }
        i = i + 1;
    }
    assert(all.take(frags.len() as int) =~= all);
    out
}

/// What an `up` command selects from the sorted `up` files: the pending
/// suffix `files[applied..]`, all of it for an unbounded request, else its
/// first `num`.  A request for more than is pending fails.
pub open spec fn spec_plan_up(applied: int, files: Seq<Seq<char>>, num: int) -> Result<
    Seq<Seq<char>>,
    MigError,
> {
    let lo = if applied <= files.len() {
        applied
    } else {
        files.len() as int
    };
    if num == -1 {
        Ok(files.skip(lo))
    } else if num < 0 || num > files.len() - lo {
        Err(MigError::InsufficientMigrations)
    } else {
        Ok(files.subrange(lo, lo + num))
    }
}

/// Selects the batch of an `up` command from the sorted `up` files, given
/// how many migrations the ledger already counts.  `num` is the requested
/// count; -1 asks for every pending migration.  The batch is in ascending
/// order.  `InsufficientMigrations` is returned, and nothing selected,
/// exactly when the request exceeds what is pending.
pub fn plan_up(applied: usize, up_files: &Vec<String>, num: i32) -> (r: Result<
    Vec<String>,
    MigError,
>)
    ensures
        match (r, spec_plan_up(applied as int, up_files.deep_view(), num as int)) {
            (Ok(v), Ok(s)) => v.deep_view() == s,
            (Err(e), Err(se)) => e == se,
            _ => false,
        },
{
    let ghost all = up_files.deep_view();
    let len = up_files.len();
    let lo = if applied <= len {
        applied
    } else {
        len
    };
    let hi: usize;
    if num == -1 {
        hi = len;
        assert(all.skip(lo as int) =~= all.subrange(lo as int, len as int));
    } else if num < 0 {
        return Err(MigError::InsufficientMigrations);
    } else {
        let want = num as usize;
        if want > len - lo {
            return Err(MigError::InsufficientMigrations);
        }
        hi = lo + want;
    }
    let mut out: Vec<String> = Vec::new();
    let mut j: usize = lo;
    while j < hi
        invariant
            lo <= j <= hi <= len,
            all == up_files.deep_view(),
            len == up_files.len(),
            out.deep_view() == all.subrange(lo as int, j as int),
        decreases hi - j,
    {
        let ghost prev = out.deep_view();
        out.push(up_files[j].clone());
        proof {
            assert(out.deep_view() =~= prev.push(all[j as int]));
            assert(all.subrange(lo as int, j as int).push(all[j as int]) =~= all.subrange(
                lo as int,
                j + 1,
            ));
        }
        j = j + 1;
    }
    Ok(out)
}

/// What a `down` command selects from the sorted `down` files: the last
/// `num` of the applied prefix, in descending order, most recently applied
/// first.  A request for more than is applied fails.
pub open spec fn spec_plan_down(applied: int, files: Seq<Seq<char>>, num: int) -> Result<
    Seq<Seq<char>>,
    MigError,
> {
    if num < 0 || num > applied {
        Err(MigError::InsufficientAppliedMigrations)
    } else {
        let lo = if applied - num <= files.len() {
            applied - num
        } else {
            files.len() as int
        };
        let hi = if applied <= files.len() {
            applied
        } else {
            files.len() as int
        };
        Ok(files.subrange(lo, hi).reverse())
    }
}

/// Selects the batch of a `down` command from the sorted `down` files:
/// the `num` most recently applied migrations, in the order they are to be
/// reverted (most recent first).  `InsufficientAppliedMigrations` is
/// returned, and nothing selected, exactly when the request exceeds what
/// is applied.
pub fn plan_down(applied: usize, down_files: &Vec<String>, num: i32) -> (r: Result<
    Vec<String>,
    MigError,
>)
    ensures
        match (r, spec_plan_down(applied as int, down_files.deep_view(), num as int)) {
            (Ok(v), Ok(s)) => v.deep_view() == s,
            (Err(e), Err(se)) => e == se,
            _ => false,
        },
{
    let ghost all = down_files.deep_view();
    let len = down_files.len();
    if num < 0 {
        return Err(MigError::InsufficientAppliedMigrations);
    }
    let want = num as usize;
    if want > applied {
        return Err(MigError::InsufficientAppliedMigrations);
    }
    let lo = if applied - want <= len {
        applied - want
    } else {
        len
    };
    let hi = if applied <= len {
        applied
    } else {
        len
    };
    assert(lo <= hi);
    let mut out: Vec<String> = Vec::new();
    let mut j: usize = hi;
    while j > lo
        invariant
            lo <= j <= hi <= len,
            all == down_files.deep_view(),
            len == down_files.len(),
            out.deep_view().len() == hi - j,
            forall|k: int| 0 <= k < hi - j ==> out.deep_view()[k] == all[hi - 1 - k],
        decreases j - lo,
    {
        let ghost prev = out.deep_view();
        out.push(down_files[j - 1].clone());
        proof {
            assert(out.deep_view() =~= prev.push(all[j - 1]));
        }
        j = j - 1;
    }
    proof {
        let slice = all.subrange(lo as int, hi as int);
        assert(out.deep_view() =~= slice.reverse());
    }
    Ok(out)
}

/// The ledger rows an `up` batch inserts: the logical name of each file,
/// in batch order.
pub open spec fn up_names(files: Seq<Seq<char>>) -> Seq<Seq<char>> {
    files.map_values(|f: Seq<char>| spec_migration_name(f, Direction::Up))
}

/// The ledger rows a `down` batch deletes: the logical name of each file,
/// in batch order.
pub open spec fn down_names(files: Seq<Seq<char>>) -> Seq<Seq<char>> {
    files.map_values(|f: Seq<char>| spec_migration_name(f, Direction::Down))
}

/// One `up` batch inside its transaction.  Each step inserts the ledger
/// row of the next file and executes that file's statements; the ledger
/// only changes when every step has succeeded and the run commits.
pub struct UpRun {
    ledger: Ledger,
    files: Vec<String>,
    done: usize,
}

impl UpRun {
    /// The ledger as it stood when the transaction opened.
    pub closed spec fn spec_ledger(&self) -> Seq<Seq<char>> {
        self.ledger@
    }

    /// The batch, ascending.
    pub closed spec fn spec_files(&self) -> Seq<Seq<char>> {
        self.files.deep_view()
    }

    /// How many steps have succeeded.
    pub closed spec fn spec_done(&self) -> int {
        self.done as int
    }

    /// Opens the transaction of an `up` batch.
    pub fn begin(ledger: Ledger, files: Vec<String>) -> (r: UpRun)
        ensures
            r.spec_ledger() == ledger@,
            r.spec_files() == files.deep_view(),
            r.spec_done() == 0,
    {
        UpRun { ledger, files, done: 0 }
    }

    /// How many steps have succeeded.
    pub fn done(&self) -> (r: usize)
        ensures
            r == self.spec_done(),
    {
        self.done
    }

    /// Whether every file of the batch has been processed.
    pub fn is_finished(&self) -> (r: bool)
        ensures
            r == (self.spec_done() == self.spec_files().len()),
    {
        self.done == self.files.len()
    }

    /// The file the next step applies.
    pub fn next_file(&self) -> (r: &String)
        requires
            self.spec_done() < self.spec_files().len(),
        ensures
            r@ == self.spec_files()[self.spec_done()],
    {
        &self.files[self.done]
    }

    /// The ledger row the next step inserts: the next file's logical name.
    pub fn next_name(&self) -> (r: String)
        requires
            self.spec_done() < self.spec_files().len(),
        ensures
            r@ == up_names(self.spec_files())[self.spec_done()],
    {
        migration_name(&self.files[self.done], Direction::Up)
    }

    /// Records that the next file's row was inserted and its statements
    /// all succeeded.  The ledger itself is untouched: the work is still
    /// uncommitted.
    pub fn step_ok(&mut self)
        requires
            old(self).spec_done() < old(self).spec_files().len(),
        ensures
            final(self).spec_ledger() == old(self).spec_ledger(),
            final(self).spec_files() == old(self).spec_files(),
            final(self).spec_done() == old(self).spec_done() + 1,
    {
        let n = self.files.len();
        assert(self.done < n);
        self.done = self.done + 1;
    }

    /// Commits the transaction after every step succeeded: the ledger gains
    /// one row per file of the batch, in batch order.
    pub fn commit(self) -> (r: Ledger)
        requires
            self.spec_done() == self.spec_files().len(),
        ensures
            r@ == self.spec_ledger() + up_names(self.spec_files()),
    {
        let UpRun { mut ledger, files, done: _ } = self;
        let ghost base = ledger@;
        let ghost all = files.deep_view();
        let mut i: usize = 0;
        while i < files.len()
            invariant
                i <= files.len(),
                all == files.deep_view(),
                ledger@ == base + up_names(all.take(i as int)),
            decreases files.len() - i,
        {
            let name = migration_name(&files[i], Direction::Up);
            ledger.insert_row(name);
            proof {
                assert(up_names(all.take(i + 1)) =~= up_names(all.take(i as int)).push(
                    spec_migration_name(all[i as int], Direction::Up),
                ));
                assert(ledger@ =~= base + up_names(all.take(i + 1)));
            }
            i = i + 1;
        }
        assert(all.take(files.len() as int) =~= all);
        ledger
    }

    /// Rolls the transaction back after a failed step: whatever rows this
    /// batch had already inserted are discarded with it, and the ledger is
    /// exactly what it was when the transaction opened.
    pub fn abort(self) -> (r: Ledger)
        ensures
            r@ == self.spec_ledger(),
    {
        self.ledger
    }
}

/// One `down` batch inside its transaction.  Each step deletes the ledger
/// row of the next file and executes that file's statements; the ledger
/// only changes when every step has succeeded and the run commits.
pub struct DownRun {
    ledger: Ledger,
    files: Vec<String>,
    done: usize,
}

impl DownRun {
    /// The ledger as it stood when the transaction opened.
    pub closed spec fn spec_ledger(&self) -> Seq<Seq<char>> {
        self.ledger@
    }

    /// The batch, most recently applied first.
    pub closed spec fn spec_files(&self) -> Seq<Seq<char>> {
        self.files.deep_view()
    }

    /// How many steps have succeeded.
    pub closed spec fn spec_done(&self) -> int {
        self.done as int
    }

    /// Opens the transaction of a `down` batch.
    pub fn begin(ledger: Ledger, files: Vec<String>) -> (r: DownRun)
        ensures
            r.spec_ledger() == ledger@,
            r.spec_files() == files.deep_view(),
            r.spec_done() == 0,
    {
        DownRun { ledger, files, done: 0 }
    }

    /// How many steps have succeeded.
    pub fn done(&self) -> (r: usize)
        ensures
            r == self.spec_done(),
    {
        self.done
    }

    /// Whether every file of the batch has been processed.
    pub fn is_finished(&self) -> (r: bool)
        ensures
            r == (self.spec_done() == self.spec_files().len()),
    {
        self.done == self.files.len()
    }

    /// The file the next step reverts.
    pub fn next_file(&self) -> (r: &String)
        requires
            self.spec_done() < self.spec_files().len(),
        ensures
            r@ == self.spec_files()[self.spec_done()],
    {
        &self.files[self.done]
    }

    /// The ledger row the next step deletes: the next file's logical name.
    pub fn next_name(&self) -> (r: String)
        requires
            self.spec_done() < self.spec_files().len(),
        ensures
            r@ == down_names(self.spec_files())[self.spec_done()],
    {
        migration_name(&self.files[self.done], Direction::Down)
    }

    /// Records that the next file's row was deleted and its statements all
    /// succeeded.  The ledger itself is untouched: the work is still
    /// uncommitted.
    pub fn step_ok(&mut self)
        requires
            old(self).spec_done() < old(self).spec_files().len(),
        ensures
            final(self).spec_ledger() == old(self).spec_ledger(),
            final(self).spec_files() == old(self).spec_files(),
            final(self).spec_done() == old(self).spec_done() + 1,
    {
        let n = self.files.len();
        assert(self.done < n);
        self.done = self.done + 1;
    }

    /// Commits the transaction after every step succeeded: every row whose
    /// name the batch carries is deleted, and no other.
    pub fn commit(self) -> (r: Ledger)
        requires
            self.spec_done() == self.spec_files().len(),
        ensures
            r@ == spec_remove_names(self.spec_ledger(), down_names(self.spec_files())),
    {
        let DownRun { mut ledger, files, done: _ } = self;
        let ghost all = files.deep_view();
        let mut names: Vec<String> = Vec::new();
        let mut i: usize = 0;
        while i < files.len()
            invariant
                i <= files.len(),
                all == files.deep_view(),
                names.deep_view() == down_names(all.take(i as int)),
            decreases files.len() - i,
        {
            names.push(migration_name(&files[i], Direction::Down));
            proof {
                assert(down_names(all.take(i + 1)) =~= down_names(all.take(i as int)).push(
                    spec_migration_name(all[i as int], Direction::Down),
                ));
                assert(names.deep_view() =~= down_names(all.take(i + 1)));
            }
            i = i + 1;
        }
        assert(all.take(files.len() as int) =~= all);
        ledger.delete_rows(&names);
        ledger
    }

    /// Rolls the transaction back after a failed step: whatever rows this
    /// batch had already deleted come back with it, and the ledger is
    /// exactly what it was when the transaction opened.
    pub fn abort(self) -> (r: Ledger)
        ensures
            r@ == self.spec_ledger(),
    {
        self.ledger
    }
}

/// `up N` followed by `down N` is a round trip.  Two hypotheses carry the
/// well-formedness the database grants: the file lists are paired — the
/// i-th `up` file and the i-th `down` file name the same migration — and
/// the batch's logical names are fresh to the ledger, which the ledger
/// table's unique `name` column enforces on any ledger this engine wrote.
/// Under them the `up` plan succeeds, the `down` plan of the grown ledger
/// succeeds, and committing both leaves the ledger exactly as it began:
/// the `down` removes the `N` most recently inserted rows and only them,
/// most recent first.
pub proof fn lemma_up_down_round_trip(
    rows: Seq<Seq<char>>,
    up_files: Seq<Seq<char>>,
    down_files: Seq<Seq<char>>,
    n: int,
)
    requires
        up_names(up_files) == down_names(down_files),
        up_files.len() == down_files.len(),
        0 <= n,
        rows.len() + n <= up_files.len(),
        forall|i: int|
            0 <= i < rows.len() ==> !up_names(up_files).subrange(
                rows.len() as int,
                rows.len() + n,
            ).contains(#[trigger] rows[i]),
    ensures
        ({
            let applied = rows.len() as int;
            let up_plan = spec_plan_up(applied, up_files, n);
            let after_up = rows + up_names(up_plan->Ok_0);
            let down_plan = spec_plan_down(after_up.len() as int, down_files, n);
            &&& up_plan is Ok
            &&& down_plan is Ok
            &&& after_up.len() == applied + n
            &&& spec_remove_names(after_up, down_names(down_plan->Ok_0)) == rows
        }),
{
    let applied = rows.len() as int;
    let up_plan = spec_plan_up(applied, up_files, n)->Ok_0;
    assert(up_plan == up_files.subrange(applied, applied + n));
    let block = up_names(up_plan);
    assert(block =~= up_names(up_files).subrange(applied, applied + n));
    let after_up = rows + block;
    let down_plan = spec_plan_down(after_up.len() as int, down_files, n)->Ok_0;
    assert(down_plan == down_files.subrange(applied, applied + n).reverse());
    assert(down_names(down_plan) =~= down_names(down_files).subrange(
        applied,
        applied + n,
    ).reverse());
    assert(down_names(down_plan) =~= block.reverse());
    crate::ledger::lemma_up_then_down_restores(rows, block);
}

/// A file name cannot carry both directions: the direction segment of an
/// `up` file has two characters, that of a `down` file four.
pub proof fn lemma_directions_exclusive(name: Seq<char>)
    ensures
        !(is_direction_file(name, "up"@) && is_direction_file(name, "down"@)),
{
    reveal_strlit("up");
    reveal_strlit("down");
}

/// In a directory of well-formed migration files, every file is an `up`
/// file or a `down` file, and the two halves together are the whole.
pub proof fn lemma_direction_partition(files: Seq<Seq<char>>)
    requires
        forall|i: int|
            0 <= i < files.len() ==> is_direction_file(#[trigger] files[i], "up"@)
                || is_direction_file(files[i], "down"@),
    ensures
        filter_direction(files, "up"@).len() + filter_direction(files, "down"@).len()
            == files.len(),
    decreases files.len(),
{
    if files.len() == 0 {
    } else {
        assert(forall|i: int|
            0 <= i < files.len() - 1 ==> #[trigger] files.drop_last()[i] == files[i]);
        lemma_direction_partition(files.drop_last());
        lemma_directions_exclusive(files.last());
    }
}

/// An unbounded `up` on a fresh ledger selects every pending migration, in
/// ascending order, and the committed ledger counts one row per `up` file:
/// half of a directory of well-formed pairs.
pub proof fn lemma_fresh_up_applies_all(all_files: Seq<Seq<char>>, ups: Seq<Seq<char>>)
    requires
        ups == filter_direction(all_files, "up"@),
        forall|i: int|
            0 <= i < all_files.len() ==> is_direction_file(#[trigger] all_files[i], "up"@)
                || is_direction_file(all_files[i], "down"@),
        filter_direction(all_files, "up"@).len() == filter_direction(all_files, "down"@).len(),
    ensures
        spec_plan_up(0, ups, -1) == Ok::<Seq<Seq<char>>, MigError>(ups),
        (Seq::<Seq<char>>::empty() + up_names(ups)).len() == all_files.len() / 2,
{
    assert(ups.skip(0) =~= ups);
    lemma_direction_partition(all_files);
}

} // verus!
