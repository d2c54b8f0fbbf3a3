//! The migration file catalog: telling `up` files from `down` files,
//! sorting file names, and choosing the serial and the names of a new
//! migration pair.

use crate::errors::MigError;
use crate::serial::{has_serial, parse_serial, serial_chars, serial_string, spec_serial};
use crate::text::{
    eq_ignore_case, ieq, lex_le, lemma_lex_le_total, lemma_lex_le_trans, split_chars, split_str,
    trim_end_matches_chars, trim_end_matches_str,
};
use vstd::prelude::*;
use vstd::string::StrSliceExecFns;
use vstd::string::StringExecFns;

verus! {

/// The direction of a migration file: whether it advances or rolls back.
#[derive(Clone, Copy, Debug, PartialEq, Eq, Structural)]
pub enum Direction {
    Up,
    Down,
}

/// The full file-name suffix of a direction.
pub open spec fn spec_direction_suffix(d: Direction) -> Seq<char> {
    match d {
        Direction::Up => ".up.sql"@,
        Direction::Down => ".down.sql"@,
    }
}

/// The full file-name suffix of a direction.
pub fn direction_suffix(d: Direction) -> (r: &'static str)
    ensures
        r@ == spec_direction_suffix(d),
{
    match d {
        Direction::Up => ".up.sql",
        Direction::Down => ".down.sql",
    }
}

/// Whether the second-to-last dot-separated segment of `name` equals `dir`,
/// up to ASCII case.  A name with fewer than two segments has no direction.
pub open spec fn is_direction_file(name: Seq<char>, dir: Seq<char>) -> bool {
    let segs = split_chars(name, '.');
    segs.len() >= 2 && ieq(segs[segs.len() - 2], dir)
}

/// The subsequence of `files` whose names carry the direction `dir`, in
/// their original order.
pub open spec fn filter_direction(files: Seq<Seq<char>>, dir: Seq<char>) -> Seq<Seq<char>>
    decreases files.len(),
{
    if files.len() == 0 {
        Seq::empty()
    } else {
        let rest = filter_direction(files.drop_last(), dir);
        if is_direction_file(files.last(), dir) {
            rest.push(files.last())
        } else {
            rest
        }
    }
}

/// Keeps the files whose second-to-last dot-separated segment equals
/// `mg_type`, case-insensitively: the `"up"` or the `"down"` half of a
/// migration directory.
pub fn filter_migration_file(mg_type: &str, mg_files: Vec<String>) -> (r: Vec<String>)
    ensures
        r.deep_view() == filter_direction(mg_files.deep_view(), mg_type@),
{
    let ghost all = mg_files.deep_view();
    let mut out: Vec<String> = Vec::new();
    let mut i: usize = 0;
    while i < mg_files.len()
        invariant
            i <= mg_files.len(),
            all == mg_files.deep_view(),
            out.deep_view() == filter_direction(all.take(i as int), mg_type@),
        decreases mg_files.len() - i,
    {
        let file = &mg_files[i];
        let segs = split_str(file.as_str(), '.');
        proof {
            assert(segs.deep_view() == split_chars(file@, '.'));
        }
        let keep = if segs.len() >= 2 {
            let witness = &segs[segs.len() - 2];
            assert(witness@ == split_chars(file@, '.')[segs.len() - 2]);
            eq_ignore_case(witness.as_str(), mg_type)
        } else {
            false
        };
        assert(keep == is_direction_file(file@, mg_type@));
        if keep {
            out.push(file.clone());
        }
        proof {
            let t = all.take(i + 1);
            assert(t.drop_last() =~= all.take(i as int));
            assert(t.last() == all[i as int]);
            assert(all[i as int] == file@);
            if keep {
                assert(out.deep_view() =~= filter_direction(all.take(i as int), mg_type@).push(
                    file@,
                ));
            }
        }
        i = i + 1;
    }
    assert(all.take(mg_files.len() as int) =~= all);
    out
}

/// File names in non-decreasing lexicographic order; because serials are
/// zero-padded to a fixed width, this is also ascending serial order.
pub open spec fn sorted_names(files: Seq<Seq<char>>) -> bool {
    forall|i: int, j: int| 0 <= i < j < files.len() ==> lex_le(files[i], files[j])
}

/// Places `x` at its position in an already sorted vector.
fn insert_sorted(out: &mut Vec<String>, x: String)
    requires
        sorted_names(old(out).deep_view()),
    ensures
        sorted_names(final(out).deep_view()),
        final(out)@.to_multiset() == old(out)@.to_multiset().insert(x),
        final(out).deep_view().to_multiset() == old(out).deep_view().to_multiset().insert(x@),
        final(out).len() == old(out).len() + 1,
{
    let ghost base = out.deep_view();
    let mut pos: usize = 0;
    while pos < out.len() && lex_le_vec_at(out, pos, &x)
        invariant
            pos <= out.len(),
            *out == *old(out),
            base == out.deep_view(),
            forall|k: int| 0 <= k < pos ==> lex_le(#[trigger] base[k], x@),
        decreases out.len() - pos,
    {
        pos = pos + 1;
    }
    proof {
        if pos < out.len() {
            lemma_lex_le_total(base[pos as int], x@);
            assert(lex_le(x@, base[pos as int]));
        }
        assert forall|k: int| pos <= k < out.len() implies lex_le(x@, #[trigger] base[k]) by {
            if pos < k {
                lemma_lex_le_trans(x@, base[pos as int], base[k]);
            }
        }
    }
    out.insert(pos, x);
    proof {
        old(out)@.insert_ensures(pos as int, x);
        assert(out.deep_view() =~= base.insert(pos as int, x@)) by {
            base.insert_ensures(pos as int, x@);
        }
        vstd::seq_lib::to_multiset_insert(old(out)@, pos as int, x);
        vstd::seq_lib::to_multiset_insert(base, pos as int, x@);
        base.insert_ensures(pos as int, x@);
        let next = base.insert(pos as int, x@);
        assert forall|i: int, j: int| 0 <= i < j < next.len() implies lex_le(
            #[trigger] next[i],
            #[trigger] next[j],
        ) by {
            if j < pos {
            } else if i < pos && j == pos {
                assert(next[i] == base[i]);
                assert(next[j] == x@);
            } else if i < pos && j > pos {
                assert(next[i] == base[i]);
                assert(next[j] == base[j - 1]);
            } else if i == pos {
                assert(next[j] == base[j - 1]);
            } else {
                assert(next[i] == base[i - 1]);
                assert(next[j] == base[j - 1]);
            }
        }
    }
}

/// Whether the element at `pos` comes no later than `x`.
fn lex_le_vec_at(out: &Vec<String>, pos: usize, x: &String) -> (r: bool)
    requires
        pos < out.len(),
    ensures
        r == lex_le(out.deep_view()[pos as int], x@),
{
    crate::text::lex_le_str(out[pos].as_str(), x.as_str())
}

/// Sorts file names lexicographically.  Zero-padded serial prefixes make
/// this the ascending numeric order the orchestrator relies on.
pub fn sort_migration_files(files: &Vec<String>) -> (r: Vec<String>)
    ensures
        sorted_names(r.deep_view()),
        r@.to_multiset() == files@.to_multiset(),
        r.deep_view().to_multiset() == files.deep_view().to_multiset(),
        r.len() == files.len(),
{
    let ghost all = files.deep_view();
    let mut out: Vec<String> = Vec::new();
    proof {
        assert(out@ =~= files@.take(0));
        assert(out.deep_view() =~= all.take(0));
    }
    let mut i: usize = 0;
    while i < files.len()
        invariant
            i <= files.len(),
            all == files.deep_view(),
            sorted_names(out.deep_view()),
            out@.to_multiset() == files@.take(i as int).to_multiset(),
            out.deep_view().to_multiset() == all.take(i as int).to_multiset(),
            out.len() == i,
        decreases files.len() - i,
    {
        let x = files[i].clone();
        proof {
            assert(x == files@[i as int]);
            vstd::seq_lib::to_multiset_build(files@.take(i as int), files@[i as int]);
            vstd::seq_lib::to_multiset_build(all.take(i as int), all[i as int]);
            assert(files@.take(i + 1) =~= files@.take(i as int).push(files@[i as int]));
            assert(all.take(i + 1) =~= all.take(i as int).push(all[i as int]));
            assert(x@ == all[i as int]);
        }
        insert_sorted(&mut out, x);
        i = i + 1;
    }
    proof {
        assert(files@.take(files.len() as int) =~= files@);
        assert(all.take(files.len() as int) =~= all);
    }
    out
}

/// Because serials are zero-padded to a fixed width, lexicographic order
/// of file names respects serial order: sorting by name is sorting by
/// serial.
pub proof fn lemma_lex_le_respects_serials(a: Seq<char>, b: Seq<char>)
    requires
        has_serial(a),
        has_serial(b),
        lex_le(a, b),
    ensures
        spec_serial(a) <= spec_serial(b),
{
    assert(a =~= a.take(4) + a.skip(4));
    assert(b =~= b.take(4) + b.skip(4));
    crate::serial::lemma_lex_le_digits(a.take(4), b.take(4), a.skip(4), b.skip(4));
}

/// In a sorted list of well-formed migration file names, serials ascend
/// with position: the orchestrator's batches are in ascending serial
/// order.
pub proof fn lemma_sorted_names_ascending_serials(files: Seq<Seq<char>>, i: int, j: int)
    requires
        sorted_names(files),
        all_have_serials(files),
        0 <= i <= j < files.len(),
    ensures
        spec_serial(files[i]) <= spec_serial(files[j]),
{
    if i < j {
        lemma_lex_le_respects_serials(files[i], files[j]);
    }
}

/// The largest serial among `files`, or 0 when there are none.
pub open spec fn spec_max_serial(files: Seq<Seq<char>>) -> int
    decreases files.len(),
{
    if files.len() == 0 {
        0
    } else {
        let rest = spec_max_serial(files.drop_last());
        if spec_serial(files.last()) > rest {
            spec_serial(files.last())
        } else {
            rest
        }
    }
}

/// Whether every file name begins with a four-digit serial.
pub open spec fn all_have_serials(files: Seq<Seq<char>>) -> bool {
    forall|i: int| 0 <= i < files.len() ==> has_serial(#[trigger] files[i])
}

/// No file's serial exceeds the largest serial.
pub proof fn lemma_max_serial_ge(files: Seq<Seq<char>>, i: int)
    requires
        0 <= i < files.len(),
    ensures
        spec_serial(files[i]) <= spec_max_serial(files),
    decreases files.len(),
{
    if i == files.len() - 1 {
    } else {
        assert(files.drop_last()[i] == files[i]);
        lemma_max_serial_ge(files.drop_last(), i);
    }
}

/// The largest serial is bounded by any bound on all serials.
pub proof fn lemma_max_serial_le(files: Seq<Seq<char>>, bound: int)
    requires
        bound >= 0,
        forall|i: int| 0 <= i < files.len() ==> spec_serial(#[trigger] files[i]) <= bound,
    ensures
        spec_max_serial(files) <= bound,
    decreases files.len(),
{
    if files.len() == 0 {
    } else {
        assert(forall|i: int|
            0 <= i < files.len() - 1 ==> #[trigger] files.drop_last()[i] == files[i]);
        lemma_max_serial_le(files.drop_last(), bound);
    }
}

/// The serial a `new` invocation hands out is strictly above every serial
/// already on disk: over a sequence of invocations, serials strictly
/// increase.
pub proof fn lemma_new_serial_exceeds_all(files: Seq<Seq<char>>, i: int)
    requires
        0 <= i < files.len(),
    ensures
        spec_serial(files[i]) < spec_max_serial(files) + 1,
{
    lemma_max_serial_ge(files, i);
}

/// Serials stay contiguous from 1: when the serials on disk are exactly
/// bounded by `k` — attained when any file exists, with `k == 0` for an
/// empty directory — the next pair receives `k + 1`.  Starting from an
/// empty directory, successive `new` invocations therefore produce
/// 1, 2, 3, …
pub proof fn lemma_new_serials_contiguous(files: Seq<Seq<char>>, k: int)
    requires
        k >= 0,
        files.len() == 0 ==> k == 0,
        forall|i: int| 0 <= i < files.len() ==> spec_serial(#[trigger] files[i]) <= k,
        files.len() > 0 ==> exists|i: int|
            0 <= i < files.len() && spec_serial(#[trigger] files[i]) == k,
    ensures
        spec_max_serial(files) == k,
{
    if files.len() == 0 {
    } else {
        let w = choose|i: int| 0 <= i < files.len() && spec_serial(#[trigger] files[i]) == k;
        lemma_max_serial_ge(files, w);
        lemma_max_serial_le(files, k);
    }
}

/// The serial the next migration pair receives: one above the largest
/// serial on disk, or 1 for an empty directory.  Any file whose name does
/// not begin with four digits makes the whole set invalid.
pub fn next_serial(files: &Vec<String>) -> (r: Result<u32, MigError>)
    ensures
        match r {
            Ok(n) => all_have_serials(files.deep_view()) && n == spec_max_serial(files.deep_view())
                + 1 && 1 <= n <= 10000,
            Err(e) => e == MigError::InvalidMigrationName && !all_have_serials(files.deep_view()),
        },
{
    let ghost all = files.deep_view();
    let mut max: u32 = 0;
    let mut i: usize = 0;
    while i < files.len()
        invariant
            i <= files.len(),
            all == files.deep_view(),
            all_have_serials(all.take(i as int)),
            max == spec_max_serial(all.take(i as int)),
            max <= 9999,
        decreases files.len() - i,
    {
        let s = match parse_serial(&files[i]) {
            Ok(s) => s,
            Err(e) => {
                assert(!has_serial(all[i as int]));
                return Err(e);
            },
        };
        proof {
            let t = all.take(i + 1);
            assert(t.drop_last() =~= all.take(i as int));
            assert(t.last() == all[i as int]);
        }
        if s > max {
            max = s;
        }
        i = i + 1;
    }
    assert(all.take(files.len() as int) =~= all);
    Ok(max + 1)
}

/// The file name of one half of a migration pair: the zero-padded serial,
/// an underscore, the migration's name, and the direction suffix.
pub open spec fn spec_pair_name(serial: int, name: Seq<char>, d: Direction) -> Seq<char> {
    serial_chars(serial) + "_"@ + name + spec_direction_suffix(d)
}

/// The names of the two files of a new migration: the same fresh serial
/// and the same name, one with the `up` and one with the `down` suffix.
/// Fails, creating nothing, when an existing file name has no serial.
pub fn new_migration_names(files: &Vec<String>, name: &String) -> (r: Result<
    (String, String),
    MigError,
>)
    ensures
        match r {
            Ok(pair) => {
                let next = spec_max_serial(files.deep_view()) + 1;
                &&& all_have_serials(files.deep_view())
                &&& pair.0@ == spec_pair_name(next, name@, Direction::Up)
                &&& pair.1@ == spec_pair_name(next, name@, Direction::Down)
            },
            Err(e) => e == MigError::InvalidMigrationName && !all_have_serials(files.deep_view()),
        },
{
    let serial = match next_serial(files) {
        Ok(n) => n,
        Err(e) => {
            return Err(e);
        },
    };
    let stem = serial_string(serial).concat("_").concat(name.as_str());
    proof {
        reveal_strlit("_");
    }
    let up = stem.clone().concat(direction_suffix(Direction::Up));
    let down = stem.concat(direction_suffix(Direction::Down));
    assert(up@ =~= spec_pair_name(serial as int, name@, Direction::Up));
    assert(down@ =~= spec_pair_name(serial as int, name@, Direction::Down));
    Ok((up, down))
}

/// The logical name of a migration file: what stands between the serial
/// prefix (four digits and a separator) and the direction suffix.
pub open spec fn spec_migration_name(file: Seq<char>, d: Direction) -> Seq<char> {
    let tail = if file.len() >= 5 {
        file.skip(5)
    } else {
        Seq::<char>::empty()
    };
    trim_end_matches_chars(tail, spec_direction_suffix(d))
}

/// The logical name of a migration file, as the ledger records it.
pub fn migration_name(file: &String, d: Direction) -> (r: String)
    ensures
        r@ == spec_migration_name(file@, d),
{
    let s = file.as_str();
    let len = s.unicode_len();
    let tail = if len >= 5 {
        s.substring_char(5, len)
    } else {
        s.substring_char(len, len)
    };
    proof {
        reveal_strlit(".up.sql");
        reveal_strlit(".down.sql");
        if len >= 5 {
            assert(tail@ =~= file@.skip(5));
        } else {
            assert(tail@ =~= Seq::<char>::empty());
        }
    }
    trim_end_matches_str(tail, direction_suffix(d))
}

} // verus!
