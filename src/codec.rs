use vstd::bytes::{
    lemma_auto_spec_u64_to_from_le_bytes, spec_u64_from_le_bytes, spec_u64_to_le_bytes,
    u64_from_le_bytes, u64_to_le_bytes,
};
use vstd::prelude::*;
use vstd::slice::{slice_subrange, slice_to_vec};
use vstd::utf8::{decode_utf8, encode_utf8, valid_utf8};

use crate::calendar::{ContributionCalendar, ContributionsCollection, GhDay, GhWeek};
use crate::time::{timestamp_in_range, UtcDateTime};
use crate::user_data::UserData;

verus! {

/// A day as plain values: count, weekday and date.
pub type DayModel = (i32, usize, Seq<char>);

/// A week as the models of its days.
pub type WeekModel = Seq<DayModel>;

/// A calendar as its total and the models of its weeks.
pub type CollectionModel = (usize, Seq<WeekModel>);

/// A snapshot as plain values: creation timestamp, years, last year's
/// calendar, current and longest streak.
pub type SnapshotModel = (i64, Seq<(CollectionModel, i32)>, CollectionModel, i32, i32);

impl View for GhDay {
    type V = DayModel;

    open spec fn view(&self) -> DayModel {
        (self.contributionCount, self.weekday, self.date@)
    }
}

impl View for GhWeek {
    type V = WeekModel;

    open spec fn view(&self) -> WeekModel {
        self.contributionDays@.map_values(|d: GhDay| d@)
    }
}

impl View for ContributionsCollection {
    type V = CollectionModel;

    open spec fn view(&self) -> CollectionModel {
        (
            self.contributionCalendar.totalContributions,
            self.contributionCalendar.weeks@.map_values(|w: GhWeek| w@),
        )
    }
}

impl View for UserData {
    type V = SnapshotModel;

    open spec fn view(&self) -> SnapshotModel {
        (
            self.created_at.timestamp,
            self.years@.map_values(|y: (ContributionsCollection, i32)| (y.0@, y.1)),
            self.last_year@,
            self.current_streak,
            self.longest_streak,
        )
    }
}

// ---------------------------------------------------------------------------
// The byte format. Every integer is eight bytes, little endian: an `i32` or
// `i64` is offset by its type's minimum, a length counts the items or bytes
// that follow it, and a string is its UTF-8 bytes.
pub open spec fn enc_u64(x: u64) -> Seq<u8> {
    spec_u64_to_le_bytes(x)
}

pub open spec fn enc_len(n: nat) -> Seq<u8> {
    enc_u64(n as u64)
}

pub open spec fn enc_i32(x: i32) -> Seq<u8> {
    enc_u64((x - i32::MIN) as u64)
}

pub open spec fn enc_i64(x: i64) -> Seq<u8> {
    enc_u64((x - i64::MIN) as u64)
}

pub open spec fn enc_usize(x: usize) -> Seq<u8> {
    enc_u64(x as u64)
}

pub open spec fn enc_str(s: Seq<char>) -> Seq<u8> {
    enc_len(encode_utf8(s).len()) + encode_utf8(s)
}

/// The items of `xs` encoded one after another, without their number.
pub open spec fn enc_items<A>(xs: Seq<A>, enc: spec_fn(A) -> Seq<u8>) -> Seq<u8>
    decreases xs.len(),
{
    if xs.len() == 0 {
        Seq::empty()
    } else {
        enc_items(xs.drop_last(), enc) + enc(xs.last())
    }
}

pub open spec fn enc_day(d: DayModel) -> Seq<u8> {
    enc_i32(d.0) + enc_usize(d.1) + enc_str(d.2)
}

pub open spec fn day_writer() -> spec_fn(DayModel) -> Seq<u8> {
    |d: DayModel| enc_day(d)
}

pub open spec fn enc_week(w: WeekModel) -> Seq<u8> {
    enc_len(w.len()) + enc_items(w, day_writer())
}

pub open spec fn week_writer() -> spec_fn(WeekModel) -> Seq<u8> {
    |w: WeekModel| enc_week(w)
}

pub open spec fn enc_collection(c: CollectionModel) -> Seq<u8> {
    enc_usize(c.0) + enc_len(c.1.len()) + enc_items(c.1, week_writer())
}

pub open spec fn enc_year(y: (CollectionModel, i32)) -> Seq<u8> {
    enc_collection(y.0) + enc_i32(y.1)
}

pub open spec fn year_writer() -> spec_fn((CollectionModel, i32)) -> Seq<u8> {
    |y: (CollectionModel, i32)| enc_year(y)
}

/// The encoding of a snapshot.
pub open spec fn enc_snapshot(m: SnapshotModel) -> Seq<u8> {
    enc_i64(m.0) + enc_len(m.1.len()) + enc_items(m.1, year_writer()) + enc_collection(m.2)
        + enc_i32(m.3) + enc_i32(m.4)
}

// Every length of a model fits the eight bytes that record it.
pub open spec fn valid_day(d: DayModel) -> bool {
    encode_utf8(d.2).len() <= u64::MAX
}

pub open spec fn valid_week(w: WeekModel) -> bool {
    w.len() <= u64::MAX && forall|i: int| 0 <= i < w.len() ==> valid_day(#[trigger] w[i])
}

pub open spec fn valid_collection(c: CollectionModel) -> bool {
    c.1.len() <= u64::MAX && forall|i: int| 0 <= i < c.1.len() ==> valid_week(#[trigger] c.1[i])
}

/// A snapshot model that the format can hold: lengths fit eight bytes and
/// the creation instant lies between the years 1 and 9999.
pub open spec fn valid_snapshot(m: SnapshotModel) -> bool {
    &&& timestamp_in_range(m.0 as int)
    &&& m.1.len() <= u64::MAX
    &&& forall|i: int| 0 <= i < m.1.len() ==> valid_collection(#[trigger] m.1[i].0)
    &&& valid_collection(m.2)
}

// ---------------------------------------------------------------------------
// Reading the format back: each reader takes the bytes and a position and
// gives the value found there with the position after it.
pub open spec fn dec_u64(s: Seq<u8>, pos: int) -> Option<(u64, int)> {
    if 0 <= pos && pos + 8 <= s.len() {
        Some((spec_u64_from_le_bytes(s.subrange(pos, pos + 8)), pos + 8))
    } else {
        None
    }
}

pub open spec fn dec_i32(s: Seq<u8>, pos: int) -> Option<(i32, int)> {
    match dec_u64(s, pos) {
        Some((u, p)) => if u <= u32::MAX {
            Some(((u + i32::MIN) as i32, p))
        } else {
            None
        },
        None => None,
    }
}

pub open spec fn dec_i64(s: Seq<u8>, pos: int) -> Option<(i64, int)> {
    match dec_u64(s, pos) {
        Some((u, p)) => Some(((u + i64::MIN) as i64, p)),
        None => None,
    }
}

pub open spec fn dec_usize(s: Seq<u8>, pos: int) -> Option<(usize, int)> {
    match dec_u64(s, pos) {
        Some((u, p)) => if u <= usize::MAX {
            Some((u as usize, p))
        } else {
            None
        },
        None => None,
    }
}

pub open spec fn dec_str(s: Seq<u8>, pos: int) -> Option<(Seq<char>, int)> {
    match dec_u64(s, pos) {
        Some((n, p)) => if p + n <= s.len() && valid_utf8(s.subrange(p, p + n)) {
            Some((decode_utf8(s.subrange(p, p + n)), p + n))
        } else {
            None
        },
        None => None,
    }
}

/// `n` items read one after another with `dec`.
pub open spec fn dec_items<A>(
    s: Seq<u8>,
    pos: int,
    n: nat,
    dec: spec_fn(Seq<u8>, int) -> Option<(A, int)>,
) -> Option<(Seq<A>, int)>
    decreases n,
{
    if n == 0 {
        Some((Seq::empty(), pos))
    } else {
        match dec_items(s, pos, (n - 1) as nat, dec) {
            Some((xs, p)) => match dec(s, p) {
                Some((x, q)) => Some((xs.push(x), q)),
                None => None,
            },
            None => None,
        }
    }
}

pub open spec fn dec_day(s: Seq<u8>, pos: int) -> Option<(DayModel, int)> {
    match dec_i32(s, pos) {
        Some((count, at1)) => match dec_usize(s, at1) {
            Some((weekday, at2)) => match dec_str(s, at2) {
                Some((date, at3)) => Some(((count, weekday, date), at3)),
                None => None,
            },
            None => None,
        },
        None => None,
    }
}

pub open spec fn day_reader() -> spec_fn(Seq<u8>, int) -> Option<(DayModel, int)> {
    |s: Seq<u8>, q: int| dec_day(s, q)
}

pub open spec fn dec_week(s: Seq<u8>, pos: int) -> Option<(WeekModel, int)> {
    match dec_u64(s, pos) {
        Some((n, p)) => dec_items(s, p, n as nat, day_reader()),
        None => None,
    }
}

pub open spec fn week_reader() -> spec_fn(Seq<u8>, int) -> Option<(WeekModel, int)> {
    |s: Seq<u8>, q: int| dec_week(s, q)
}

pub open spec fn dec_collection(s: Seq<u8>, pos: int) -> Option<(CollectionModel, int)> {
    match dec_usize(s, pos) {
        Some((total, at1)) => match dec_u64(s, at1) {
            Some((n, at2)) => match dec_items(s, at2, n as nat, week_reader()) {
                Some((weeks, at3)) => Some(((total, weeks), at3)),
                None => None,
            },
            None => None,
        },
        None => None,
    }
}

pub open spec fn dec_year(s: Seq<u8>, pos: int) -> Option<((CollectionModel, i32), int)> {
    match dec_collection(s, pos) {
        Some((c, at1)) => match dec_i32(s, at1) {
            Some((y, at2)) => Some(((c, y), at2)),
            None => None,
        },
        None => None,
    }
}

pub open spec fn year_reader() -> spec_fn(Seq<u8>, int) -> Option<((CollectionModel, i32), int)> {
    |s: Seq<u8>, q: int| dec_year(s, q)
}

pub open spec fn dec_snapshot_at(s: Seq<u8>, pos: int) -> Option<(SnapshotModel, int)> {
    match dec_i64(s, pos) {
        Some((created, at1)) => if !timestamp_in_range(created as int) {
            None
        } else {
            match dec_u64(s, at1) {
                Some((n, at2)) => match dec_items(s, at2, n as nat, year_reader()) {
                    Some((years, at3)) => match dec_collection(s, at3) {
                        Some((last, at4)) => match dec_i32(s, at4) {
                            Some((current, at5)) => match dec_i32(s, at5) {
                                Some((longest, at6)) => Some(
                                    ((created, years, last, current, longest), at6),
                                ),
                                None => None,
                            },
                            None => None,
                        },
                        None => None,
                    },
                    None => None,
                },
                None => None,
            }
        },
        None => None,
    }
}

/// The snapshot that `s` holds: one encoding that spans all of `s`.
pub open spec fn dec_snapshot(s: Seq<u8>) -> Option<SnapshotModel> {
    match dec_snapshot_at(s, 0) {
        Some((m, p)) => if p == s.len() {
            Some(m)
        } else {
            None
        },
        None => None,
    }
}

// ---------------------------------------------------------------------------
// Reading an encoding back gives the model that was encoded.

/// `s` holds the bytes `x` from position `pos` on.
pub open spec fn holds(s: Seq<u8>, pos: int, x: Seq<u8>) -> bool {
    0 <= pos && pos + x.len() <= s.len() && s.subrange(pos, pos + x.len()) == x
}

proof fn lemma_holds_split(s: Seq<u8>, pos: int, a: Seq<u8>, b: Seq<u8>)
    requires
        holds(s, pos, a + b),
    ensures
        holds(s, pos, a),
        holds(s, pos + a.len(), b),
{
    assert(s.subrange(pos, pos + a.len()) =~= (a + b).subrange(0, a.len() as int));
    assert((a + b).subrange(0, a.len() as int) =~= a);
    assert(s.subrange(pos + a.len(), pos + a.len() + b.len()) =~= (a + b).subrange(
        a.len() as int,
        (a + b).len() as int,
    ));
    assert((a + b).subrange(a.len() as int, (a + b).len() as int) =~= b);
}

proof fn lemma_read_u64(s: Seq<u8>, pos: int, x: u64)
    requires
        holds(s, pos, enc_u64(x)),
    ensures
        enc_u64(x).len() == 8,
        dec_u64(s, pos) == Some((x, pos + 8)),
{
    lemma_auto_spec_u64_to_from_le_bytes();
}

proof fn lemma_read_i32(s: Seq<u8>, pos: int, x: i32)
    requires
        holds(s, pos, enc_i32(x)),
    ensures
        enc_i32(x).len() == 8,
        dec_i32(s, pos) == Some((x, pos + 8)),
{
    lemma_read_u64(s, pos, (x - i32::MIN) as u64);
}

proof fn lemma_read_i64(s: Seq<u8>, pos: int, x: i64)
    requires
        holds(s, pos, enc_i64(x)),
    ensures
        enc_i64(x).len() == 8,
        dec_i64(s, pos) == Some((x, pos + 8)),
{
    lemma_read_u64(s, pos, (x - i64::MIN) as u64);
}

proof fn lemma_read_usize(s: Seq<u8>, pos: int, x: usize)
    requires
        holds(s, pos, enc_usize(x)),
    ensures
        enc_usize(x).len() == 8,
        dec_usize(s, pos) == Some((x, pos + 8)),
{
    lemma_read_u64(s, pos, x as u64);
}

proof fn lemma_read_str(s: Seq<u8>, pos: int, x: Seq<char>)
    requires
        holds(s, pos, enc_str(x)),
        encode_utf8(x).len() <= u64::MAX,
    ensures
        dec_str(s, pos) == Some((x, pos + enc_str(x).len())),
{
    let b = encode_utf8(x);
    lemma_holds_split(s, pos, enc_len(b.len()), b);
    lemma_read_u64(s, pos, b.len() as u64);
    vstd::utf8::encode_utf8_valid_utf8(x);
    vstd::utf8::encode_utf8_decode_utf8(x);
}

proof fn lemma_read_day(s: Seq<u8>, pos: int, d: DayModel)
    requires
        holds(s, pos, enc_day(d)),
        valid_day(d),
    ensures
        dec_day(s, pos) == Some((d, pos + enc_day(d).len())),
{
    lemma_holds_split(s, pos, enc_i32(d.0) + enc_usize(d.1), enc_str(d.2));
    lemma_holds_split(s, pos, enc_i32(d.0), enc_usize(d.1));
    lemma_read_i32(s, pos, d.0);
    lemma_read_usize(s, pos + 8, d.1);
    lemma_read_str(s, pos + 16, d.2);
}

proof fn lemma_read_items<A>(
    s: Seq<u8>,
    pos: int,
    xs: Seq<A>,
    enc: spec_fn(A) -> Seq<u8>,
    dec: spec_fn(Seq<u8>, int) -> Option<(A, int)>,
)
    requires
        holds(s, pos, enc_items(xs, enc)),
        forall|i: int, q: int|
            0 <= i < xs.len() && #[trigger] holds(s, q, enc(xs[i])) ==> dec(s, q) == Some(
                (xs[i], q + enc(xs[i]).len()),
            ),
    ensures
        dec_items(s, pos, xs.len(), dec) == Some((xs, pos + enc_items(xs, enc).len())),
    decreases xs.len(),
{
    if xs.len() > 0 {
        let init = xs.drop_last();
        lemma_holds_split(s, pos, enc_items(init, enc), enc(xs.last()));
        assert forall|i: int, q: int|
            0 <= i < init.len() && #[trigger] holds(s, q, enc(init[i])) implies dec(s, q) == Some(
            (init[i], q + enc(init[i]).len()),
        ) by {
            assert(init[i] == xs[i]);
        }
        lemma_read_items(s, pos, init, enc, dec);
        assert(holds(s, pos + enc_items(init, enc).len(), enc(xs[xs.len() - 1])));
        assert(init.push(xs.last()) =~= xs);
    }
}

proof fn lemma_read_week(s: Seq<u8>, pos: int, w: WeekModel)
    requires
        holds(s, pos, enc_week(w)),
        valid_week(w),
    ensures
        dec_week(s, pos) == Some((w, pos + enc_week(w).len())),
{
    lemma_holds_split(s, pos, enc_len(w.len()), enc_items(w, day_writer()));
    lemma_read_u64(s, pos, w.len() as u64);
    assert forall|i: int, q: int|
        0 <= i < w.len() && #[trigger] holds(s, q, day_writer()(w[i])) implies day_reader()(
        s,
        q,
    ) == Some((w[i], q + day_writer()(w[i]).len())) by {
        lemma_read_day(s, q, w[i]);
    }
    lemma_read_items(s, pos + 8, w, day_writer(), day_reader());
}

proof fn lemma_read_collection(s: Seq<u8>, pos: int, c: CollectionModel)
    requires
        holds(s, pos, enc_collection(c)),
        valid_collection(c),
    ensures
        dec_collection(s, pos) == Some((c, pos + enc_collection(c).len())),
{
    lemma_holds_split(s, pos, enc_usize(c.0) + enc_len(c.1.len()), enc_items(c.1, week_writer()));
    lemma_holds_split(s, pos, enc_usize(c.0), enc_len(c.1.len()));
    lemma_read_usize(s, pos, c.0);
    lemma_read_u64(s, pos + 8, c.1.len() as u64);
    assert forall|i: int, q: int|
        0 <= i < c.1.len() && #[trigger] holds(s, q, week_writer()(c.1[i])) implies week_reader()(
        s,
        q,
    ) == Some((c.1[i], q + week_writer()(c.1[i]).len())) by {
        lemma_read_week(s, q, c.1[i]);
    }
    lemma_read_items(s, pos + 16, c.1, week_writer(), week_reader());
}

proof fn lemma_read_year(s: Seq<u8>, pos: int, y: (CollectionModel, i32))
    requires
        holds(s, pos, enc_year(y)),
        valid_collection(y.0),
    ensures
        dec_year(s, pos) == Some((y, pos + enc_year(y).len())),
{
    lemma_holds_split(s, pos, enc_collection(y.0), enc_i32(y.1));
    lemma_read_collection(s, pos, y.0);
    lemma_read_i32(s, pos + enc_collection(y.0).len() as int, y.1);
}

/// Decoding the encoding of a snapshot gives back the same snapshot, field
/// for field, whatever its years, weeks and days, empty ones included.
pub proof fn lemma_snapshot_round_trip(m: SnapshotModel)
    requires
        valid_snapshot(m),
    ensures
        dec_snapshot(enc_snapshot(m)) == Some(m),
{
    let s = enc_snapshot(m);
    let years = enc_items(m.1, year_writer());
    let a = enc_i64(m.0);
    let b = enc_len(m.1.len());
    let c = enc_collection(m.2);
    let d = enc_i32(m.3);
    let e = enc_i32(m.4);
    assert(s.subrange(0, s.len() as int) =~= s);
    lemma_holds_split(s, 0, a + b + years + c + d, e);
    lemma_holds_split(s, 0, a + b + years + c, d);
    lemma_holds_split(s, 0, a + b + years, c);
    lemma_holds_split(s, 0, a + b, years);
    lemma_holds_split(s, 0, a, b);
    lemma_read_i64(s, 0, m.0);
    lemma_read_u64(s, 8, m.1.len() as u64);
    assert forall|i: int, q: int|
        0 <= i < m.1.len() && #[trigger] holds(s, q, year_writer()(m.1[i])) implies year_reader()(
        s,
        q,
    ) == Some((m.1[i], q + year_writer()(m.1[i]).len())) by {
        lemma_read_year(s, q, m.1[i]);
    }
    lemma_read_items(s, 16, m.1, year_writer(), year_reader());
    lemma_read_collection(s, 16 + years.len() as int, m.2);
    lemma_read_i32(s, 16 + years.len() + c.len() as int, m.3);
    lemma_read_i32(s, 24 + years.len() + c.len() as int, m.4);
}

// ---------------------------------------------------------------------------
// Writing.

fn write_u64(out: &mut Vec<u8>, x: u64)
    ensures
        final(out)@ == old(out)@ + enc_u64(x),
{
    let mut b = u64_to_le_bytes(x);
    out.append(&mut b);
}

fn write_i32(out: &mut Vec<u8>, x: i32)
    ensures
        final(out)@ == old(out)@ + enc_i32(x),
{
    write_u64(out, (x as i64 - i32::MIN as i64) as u64);
}

fn write_i64(out: &mut Vec<u8>, x: i64)
    ensures
        final(out)@ == old(out)@ + enc_i64(x),
{
    write_u64(out, (x as i128 - i64::MIN as i128) as u64);
}

fn write_usize(out: &mut Vec<u8>, x: usize)
    ensures
        final(out)@ == old(out)@ + enc_usize(x),
{
    write_u64(out, x as u64);
}

fn write_str(out: &mut Vec<u8>, s: &String)
    ensures
        final(out)@ == old(out)@ + enc_str(s@),
        encode_utf8(s@).len() <= u64::MAX,
{
    let b = s.as_str().as_bytes();
    write_u64(out, b.len() as u64);
    let mut v = slice_to_vec(b);
    out.append(&mut v);
    proof {
        assert(out@ =~= old(out)@ + enc_str(s@));
    }
}

fn write_day(out: &mut Vec<u8>, d: &GhDay)
    ensures
        final(out)@ == old(out)@ + enc_day(d@),
        valid_day(d@),
{
    write_i32(out, d.contributionCount);
    write_usize(out, d.weekday);
    write_str(out, &d.date);
    proof {
        assert(out@ =~= old(out)@ + enc_day(d@));
    }
}

fn write_week(out: &mut Vec<u8>, w: &GhWeek)
    ensures
        final(out)@ == old(out)@ + enc_week(w@),
        valid_week(w@),
{
    let days = &w.contributionDays;
    let ghost m = w@;
    write_u64(out, days.len() as u64);
    let ghost start = out@;
    let mut i: usize = 0;
    while i < days.len()
        invariant
            m == w@,
            days@ == w.contributionDays@,
            m.len() == days@.len(),
            0 <= i <= days@.len(),
            out@ == start + enc_items(m.take(i as int), day_writer()),
            forall|k: int| 0 <= k < i ==> valid_day(#[trigger] m[k]),
        decreases days@.len() - i,
    {
        write_day(out, &days[i]);
        proof {
            assert(m.take(i as int + 1).drop_last() =~= m.take(i as int));
            assert(m[i as int] == days@[i as int]@);
            assert(out@ =~= start + enc_items(m.take(i as int + 1), day_writer()));
        }
        i = i + 1;
    }
    proof {
        assert(m.take(m.len() as int) =~= m);
        assert(out@ =~= old(out)@ + enc_week(m));
    }
}

fn write_collection(out: &mut Vec<u8>, c: &ContributionsCollection)
    ensures
        final(out)@ == old(out)@ + enc_collection(c@),
        valid_collection(c@),
{
    let weeks = &c.contributionCalendar.weeks;
    let ghost m = c@.1;
    write_usize(out, c.contributionCalendar.totalContributions);
    write_u64(out, weeks.len() as u64);
    let ghost start = out@;
    let mut i: usize = 0;
    while i < weeks.len()
        invariant
            m == c@.1,
            weeks@ == c.contributionCalendar.weeks@,
            m.len() == weeks@.len(),
            0 <= i <= weeks@.len(),
            out@ == start + enc_items(m.take(i as int), week_writer()),
            forall|k: int| 0 <= k < i ==> valid_week(#[trigger] m[k]),
        decreases weeks@.len() - i,
    {
        write_week(out, &weeks[i]);
        proof {
            assert(m.take(i as int + 1).drop_last() =~= m.take(i as int));
            assert(m[i as int] == weeks@[i as int]@);
            assert(out@ =~= start + enc_items(m.take(i as int + 1), week_writer()));
        }
        i = i + 1;
    }
    proof {
        assert(m.take(m.len() as int) =~= m);
        assert(out@ =~= old(out)@ + enc_collection(c@));
    }
}

// ---------------------------------------------------------------------------
// Reading.

/// Relies on std's `String::from_utf8`: the bytes read as a string exactly
/// when they are valid UTF-8.
#[verifier::external_body]
fn string_from_utf8(b: &[u8]) -> (r: Option<String>)
    ensures
        r.is_some() <==> valid_utf8(b@),
        r matches Some(s) ==> s@ == decode_utf8(b@),
{
    String::from_utf8(b.to_vec()).ok()
}

fn read_u64(bytes: &[u8], pos: usize) -> (r: Option<(u64, usize)>)
    ensures
        match r {
            Some((x, p)) => dec_u64(bytes@, pos as int) == Some((x, p as int)),
            None => dec_u64(bytes@, pos as int) is None,
        },
{
    if pos <= bytes.len() && bytes.len() - pos >= 8 {
        let x = u64_from_le_bytes(slice_subrange(bytes, pos, pos + 8));
        Some((x, pos + 8))
    } else {
        None
    }
}

fn read_i32(bytes: &[u8], pos: usize) -> (r: Option<(i32, usize)>)
    ensures
        match r {
            Some((x, p)) => dec_i32(bytes@, pos as int) == Some((x, p as int)),
            None => dec_i32(bytes@, pos as int) is None,
        },
{
    match read_u64(bytes, pos) {
        Some((u, p)) => if u <= u32::MAX as u64 {
            Some(((u as i64 + i32::MIN as i64) as i32, p))
        } else {
            None
        },
        None => None,
    }
}

fn read_i64(bytes: &[u8], pos: usize) -> (r: Option<(i64, usize)>)
    ensures
        match r {
            Some((x, p)) => dec_i64(bytes@, pos as int) == Some((x, p as int)),
            None => dec_i64(bytes@, pos as int) is None,
        },
{
    match read_u64(bytes, pos) {
        Some((u, p)) => Some(((u as i128 + i64::MIN as i128) as i64, p)),
        None => None,
    }
}

fn read_usize(bytes: &[u8], pos: usize) -> (r: Option<(usize, usize)>)
    ensures
        match r {
            Some((x, p)) => dec_usize(bytes@, pos as int) == Some((x, p as int)),
            None => dec_usize(bytes@, pos as int) is None,
        },
{
    match read_u64(bytes, pos) {
        Some((u, p)) => if u <= usize::MAX as u64 {
            Some((u as usize, p))
        } else {
            None
        },
        None => None,
    }
}

fn read_str(bytes: &[u8], pos: usize) -> (r: Option<(String, usize)>)
    ensures
        match r {
            Some((x, p)) => dec_str(bytes@, pos as int) == Some((x@, p as int)),
            None => dec_str(bytes@, pos as int) is None,
        },
{
    match read_u64(bytes, pos) {
        Some((n, p)) => {
            if n > (bytes.len() - p) as u64 {
                return None;
            }
            let end = p + n as usize;
            match string_from_utf8(slice_subrange(bytes, p, end)) {
                Some(text) => Some((text, end)),
                None => None,
            }
        },
        None => None,
    }
}

fn read_day(bytes: &[u8], pos: usize) -> (r: Option<(GhDay, usize)>)
    ensures
        match r {
            Some((x, p)) => dec_day(bytes@, pos as int) == Some((x@, p as int)),
            None => dec_day(bytes@, pos as int) is None,
        },
{
    let (count, at1) = match read_i32(bytes, pos) {
        Some(v) => v,
        None => return None,
    };
    let (weekday, at2) = match read_usize(bytes, at1) {
        Some(v) => v,
        None => return None,
    };
    let (date, at3) = match read_str(bytes, at2) {
        Some(v) => v,
        None => return None,
    };
    Some((GhDay { contributionCount: count, weekday, date }, at3))
}

proof fn lemma_items_stay_failed<A>(
    s: Seq<u8>,
    pos: int,
    i: nat,
    n: nat,
    dec: spec_fn(Seq<u8>, int) -> Option<(A, int)>,
)
    requires
        i <= n,
        dec_items(s, pos, i, dec) is None,
    ensures
        dec_items(s, pos, n, dec) is None,
    decreases n,
{
    if n > i {
        lemma_items_stay_failed(s, pos, i, (n - 1) as nat, dec);
    }
}

fn read_week(bytes: &[u8], pos: usize) -> (r: Option<(GhWeek, usize)>)
    ensures
        match r {
            Some((x, p)) => dec_week(bytes@, pos as int) == Some((x@, p as int)),
            None => dec_week(bytes@, pos as int) is None,
        },
{
    let (n, at0) = match read_u64(bytes, pos) {
        Some(v) => v,
        None => return None,
    };
    let mut days: Vec<GhDay> = Vec::new();
    let mut p = at0;
    let mut i: u64 = 0;
    while i < n
        invariant
            0 <= i <= n,
            dec_u64(bytes@, pos as int) == Some((n, at0 as int)),
            dec_items(bytes@, at0 as int, i as nat, day_reader()) == Some(
                (days@.map_values(|d: GhDay| d@), p as int),
            ),
        decreases n - i,
    {
        match read_day(bytes, p) {
            Some((d, q)) => {
                proof {
                    assert(days@.push(d).map_values(|d: GhDay| d@) =~= days@.map_values(
                        |d: GhDay| d@,
                    ).push(d@));
                }
                days.push(d);
                p = q;
            },
            None => {
                proof {
                    lemma_items_stay_failed(
                        bytes@,
                        at0 as int,
                        (i + 1) as nat,
                        n as nat,
                        day_reader(),
                    );
                }
                return None;
            },
        }
        i = i + 1;
    }
    Some((GhWeek { contributionDays: days }, p))
}

fn read_collection(bytes: &[u8], pos: usize) -> (r: Option<(ContributionsCollection, usize)>)
    ensures
        match r {
            Some((x, p)) => dec_collection(bytes@, pos as int) == Some((x@, p as int)),
            None => dec_collection(bytes@, pos as int) is None,
        },
{
    let (total, at1) = match read_usize(bytes, pos) {
        Some(v) => v,
        None => return None,
    };
    let (n, at0) = match read_u64(bytes, at1) {
        Some(v) => v,
        None => return None,
    };
    let mut weeks: Vec<GhWeek> = Vec::new();
    let mut p = at0;
    let mut i: u64 = 0;
    while i < n
        invariant
            0 <= i <= n,
            dec_usize(bytes@, pos as int) == Some((total, at1 as int)),
            dec_u64(bytes@, at1 as int) == Some((n, at0 as int)),
            dec_items(bytes@, at0 as int, i as nat, week_reader()) == Some(
                (weeks@.map_values(|w: GhWeek| w@), p as int),
            ),
        decreases n - i,
    {
        match read_week(bytes, p) {
            Some((w, q)) => {
                proof {
                    assert(weeks@.push(w).map_values(|w: GhWeek| w@) =~= weeks@.map_values(
                        |w: GhWeek| w@,
                    ).push(w@));
                }
                weeks.push(w);
                p = q;
            },
            None => {
                proof {
                    lemma_items_stay_failed(
                        bytes@,
                        at0 as int,
                        (i + 1) as nat,
                        n as nat,
                        week_reader(),
                    );
                }
                return None;
            },
        }
        i = i + 1;
    }
    let c = ContributionsCollection {
        contributionCalendar: ContributionCalendar { totalContributions: total, weeks },
    };
    Some((c, p))
}

fn read_year(bytes: &[u8], pos: usize) -> (r: Option<((ContributionsCollection, i32), usize)>)
    ensures
        match r {
            Some((x, p)) => dec_year(bytes@, pos as int) == Some(((x.0@, x.1), p as int)),
            None => dec_year(bytes@, pos as int) is None,
        },
{
    let (c, at1) = match read_collection(bytes, pos) {
        Some(v) => v,
        None => return None,
    };
    let (year, at2) = match read_i32(bytes, at1) {
        Some(v) => v,
        None => return None,
    };
    Some(((c, year), at2))
}

impl UserData {
    /// The bytes that store this snapshot: the creation timestamp, the
    /// number of years and each year's calendar with its year number, the
    /// last year's calendar, then the current and the longest streak.
    pub fn encode(&self) -> (r: Vec<u8>)
        requires
            self.created_at.wf(),
        ensures
            r@ == enc_snapshot(self@),
            valid_snapshot(self@),
    {
        let mut out: Vec<u8> = Vec::new();
        let ghost m = self@;
        write_i64(&mut out, self.created_at.timestamp);
        write_u64(&mut out, self.years.len() as u64);
        let ghost start = out@;
        let mut i: usize = 0;
        while i < self.years.len()
            invariant
                m == self@,
                m.1.len() == self.years@.len(),
                0 <= i <= self.years@.len(),
                out@ == start + enc_items(m.1.take(i as int), year_writer()),
                forall|k: int| 0 <= k < i ==> valid_collection(#[trigger] m.1[k].0),
            decreases self.years@.len() - i,
        {
            write_collection(&mut out, &self.years[i].0);
            write_i32(&mut out, self.years[i].1);
            proof {
                assert(m.1.take(i as int + 1).drop_last() =~= m.1.take(i as int));
                assert(m.1[i as int] == (self.years@[i as int].0@, self.years@[i as int].1));
                assert(out@ =~= start + enc_items(m.1.take(i as int + 1), year_writer()));
            }
            i = i + 1;
        }
        proof {
            assert(m.1.take(m.1.len() as int) =~= m.1);
        }
        write_collection(&mut out, &self.last_year);
        write_i32(&mut out, self.current_streak);
        write_i32(&mut out, self.longest_streak);
        proof {
            assert(out@ =~= enc_snapshot(m));
        }
        out
    }

    /// The snapshot that `bytes` store, if they hold exactly one encoding
    /// of a snapshot whose creation instant lies between the years 1 and
    /// 9999.
    pub fn decode(bytes: &[u8]) -> (r: Option<UserData>)
        ensures
            match r {
                Some(d) => dec_snapshot(bytes@) == Some(d@) && d.created_at.wf(),
                None => dec_snapshot(bytes@) is None,
            },
    {
        let (created, at1) = match read_i64(bytes, 0) {
            Some(v) => v,
            None => return None,
        };
        let created_at = match UtcDateTime::from_timestamp(created) {
            Some(t) => t,
            None => return None,
        };
        let (n, at0) = match read_u64(bytes, at1) {
            Some(v) => v,
            None => return None,
        };
        let mut years: Vec<(ContributionsCollection, i32)> = Vec::new();
        let mut p = at0;
        let mut i: u64 = 0;
        while i < n
            invariant
                0 <= i <= n,
                dec_i64(bytes@, 0) == Some((created, at1 as int)),
                created_at.timestamp == created,
                created_at.wf(),
                dec_u64(bytes@, at1 as int) == Some((n, at0 as int)),
                dec_items(bytes@, at0 as int, i as nat, year_reader()) == Some(
                    (
                        years@.map_values(|y: (ContributionsCollection, i32)| (y.0@, y.1)),
                        p as int,
                    ),
                ),
            decreases n - i,
        {
            match read_year(bytes, p) {
                Some((y, q)) => {
                    proof {
                        assert(years@.push(y).map_values(
                            |y: (ContributionsCollection, i32)| (y.0@, y.1),
                        ) =~= years@.map_values(
                            |y: (ContributionsCollection, i32)| (y.0@, y.1),
                        ).push((y.0@, y.1)));
                    }
                    years.push(y);
                    p = q;
                },
                None => {
                    proof {
                        lemma_items_stay_failed(
                            bytes@,
                            at0 as int,
                            (i + 1) as nat,
                            n as nat,
                            year_reader(),
                        );
                    }
                    return None;
                },
            }
            i = i + 1;
        }
        let (last_year, at4) = match read_collection(bytes, p) {
            Some(v) => v,
            None => return None,
        };
        let (current_streak, at5) = match read_i32(bytes, at4) {
            Some(v) => v,
            None => return None,
        };
        let (longest_streak, at6) = match read_i32(bytes, at5) {
            Some(v) => v,
            None => return None,
        };
        if at6 != bytes.len() {
            return None;
        }
        Some(UserData { created_at, years, last_year, current_streak, longest_streak })
    }
}

} // verus!
