//! The reservation book: an insertion-ordered store of reservations in
//! which no two reservations of the same item share a day, and the
//! admission of new reservations against it.

use crate::calendar::{date_after, day_number, last_date, date_text, date_text_of, last_day, Date};
use crate::request::{request_of, validate_request, BookingError};
use crate::text::{chars_of, decimal, decimal_text, same_ignoring_ascii_case, same_ignoring_case};
use vstd::prelude::*;

verus! {

/// An accepted reservation of `item` from `start_date` to `end_date`, both
/// days included, `duration` days in all: the end date comes
/// `duration - 1` days after the start date.
#[derive(Clone, Debug)]
pub struct Reservation {
    pub item: String,
    pub start_date: Date,
    pub end_date: Date,
    pub duration: u64,
}

impl Reservation {
    pub open spec fn wf(&self) -> bool {
        &&& self.start_date.wf()
        &&& self.end_date.wf()
        &&& self.start_date.spec_le(self.end_date)
        &&& self.duration >= 1
        &&& date_after(self.start_date, self.duration - 1) == Some(self.end_date)
        &&& day_number(self.end_date) == day_number(self.start_date) + self.duration - 1
    }
}

/// The closed day ranges `[s1, e1]` and `[s2, e2]` share at least one day.
pub open spec fn overlaps(s1: Date, e1: Date, s2: Date, e2: Date) -> bool {
    s1.spec_le(e2) && s2.spec_le(e1)
}

/// `r` stands in the way of reserving `item` from `start` to `end`.
pub open spec fn conflicts(r: Reservation, item: Seq<char>, start: Date, end: Date) -> bool {
    same_ignoring_ascii_case(r.item@, item) && overlaps(start, end, r.start_date, r.end_date)
}

/// Some reservation in `rs` stands in the way of reserving `item` from
/// `start` to `end`.
pub open spec fn period_reserved(rs: Seq<Reservation>, start: Date, end: Date, item: Seq<char>) -> bool {
    exists|i: int| 0 <= i < rs.len() && conflicts(#[trigger] rs[i], item, start, end)
}

/// No two reservations in `rs` are of the same item and share a day.
pub open spec fn no_conflicts(rs: Seq<Reservation>) -> bool {
    forall|i: int, j: int|
        0 <= i < j < rs.len() ==> !conflicts(
            #[trigger] rs[j],
            rs[i].item@,
            #[trigger] rs[i].start_date,
            rs[i].end_date,
        )
}

/// `r` is the reservation of `item` from `start` to `end`, `duration` days.
pub open spec fn describes(r: Reservation, item: Seq<char>, start: Date, end: Date, duration: u64) -> bool {
    r.item@ == item && r.start_date == start && r.end_date == end && r.duration == duration
}

/// `after` is `before` with one reservation appended, which `describes`
/// the given one.
pub open spec fn appended(
    before: Seq<Reservation>,
    after: Seq<Reservation>,
    item: Seq<char>,
    start: Date,
    end: Date,
    duration: u64,
) -> bool {
    &&& after.len() == before.len() + 1
    &&& after.drop_last() == before
    &&& describes(after.last(), item, start, end, duration)
}

/// The outcome of admitting `item` from `start` to `end` into `before`:
/// refused, with the book unchanged, when the period is reserved; else the
/// reservation, appended to the book.
pub open spec fn admitted(
    before: Seq<Reservation>,
    after: Seq<Reservation>,
    r: Result<Reservation, BookingError>,
    item: Seq<char>,
    start: Date,
    end: Date,
    duration: u64,
) -> bool {
    if period_reserved(before, start, end, item) {
        &&& after == before
        &&& r matches Err(BookingError::PeriodAlreadyReserved(s))
        &&& s@ == item
    } else {
        &&& r matches Ok(res)
        &&& describes(res, item, start, end, duration)
        &&& appended(before, after, item, start, end, duration)
    }
}

/// The outcome of a request to reserve `item` from the date written in
/// `start` for the number of days written in `duration`: refused when the
/// stay would end after the last day the calendar holds, else admitted or
/// refused against the book with the end date `duration - 1` days later.
pub open spec fn reservation_outcome(
    before: Seq<Reservation>,
    after: Seq<Reservation>,
    r: Result<Reservation, BookingError>,
    start: Seq<char>,
    duration: Seq<char>,
    item: Seq<char>,
) -> bool {
    match request_of(start, duration) {
        Err(e) => after == before && r == Err::<Reservation, BookingError>(e),
        Ok((d, n)) => if day_number(d) + n - 1 > day_number(last_date()) {
            after == before && r == Err::<Reservation, BookingError>(BookingError::InvalidDuration)
        } else {
            date_after(d, n - 1) matches Some(e) && admitted(before, after, r, item, d, e, n)
        },
    }
}

/// `out` holds, as strings, the lines of the listing of `rs`.
pub open spec fn lists(rs: Seq<Reservation>, out: Seq<String>) -> bool {
    out.len() == listing(rs).len() && forall|i: int|
        0 <= i < out.len() ==> (#[trigger] out[i])@ == listing(rs)[i]
}

/// The line that lists reservation `r` at position `index`, counted from 0.
pub open spec fn reservation_line(index: int, r: Reservation) -> Seq<char> {
    "Réservation "@ + decimal((index + 1) as nat) + ": "@ + r.item@ + " - Du "@ + date_text_of(
        r.start_date,
    ) + " au "@ + date_text_of(r.end_date) + " ("@ + decimal(r.duration as nat) + " jour(s))"@
}

/// The listing of `rs`: one line per reservation in order, or a single line
/// saying that there is none.
pub open spec fn listing(rs: Seq<Reservation>) -> Seq<Seq<char>> {
    if rs.len() == 0 {
        seq!["Aucune réservation"@]
    } else {
        Seq::new(rs.len(), |i: int| reservation_line(i, rs[i]))
    }
}

/// The message that confirms reservation `r`.
pub open spec fn confirmation_text(r: Reservation) -> Seq<char> {
    "Réservation confirmée pour "@ + r.item@ + " du "@ + date_text_of(r.start_date) + " pour "@
        + decimal(r.duration as nat) + " jour(s)"@
}

/// The message that reports `e`.
pub open spec fn error_text(e: BookingError) -> Seq<char> {
    match e {
        BookingError::MissingInput => "Date de début et durée sont requis"@,
        BookingError::InvalidDuration => "La durée doit être un nombre entier d'au moins 1 jour"@,
        BookingError::InvalidDate => "Date invalide (format attendu : AAAA-MM-JJ)"@,
        BookingError::PeriodAlreadyReserved(item) => "Cette période est déjà réservée pour "@
            + item@,
    }
}

impl BookingError {
    /// The human-readable reason.
    pub fn message(&self) -> (r: String)
        ensures
            r@ == error_text(*self),
    {
        match self {
            BookingError::MissingInput => String::from_str("Date de début et durée sont requis"),
            BookingError::InvalidDuration => String::from_str(
                "La durée doit être un nombre entier d'au moins 1 jour",
            ),
            BookingError::InvalidDate => String::from_str(
                "Date invalide (format attendu : AAAA-MM-JJ)",
            ),
            BookingError::PeriodAlreadyReserved(item) => {
                let mut s = String::from_str("Cette période est déjà réservée pour ");
                s.append(item.as_str());
                s
            },
        }
    }
}

impl Reservation {
    /// The line that lists this reservation at position `index`, counted
    /// from 0 and shown from 1.
    pub fn display(&self, index: usize) -> (r: String)
        requires
            self.wf(),
            index < usize::MAX,
        ensures
            r@ == reservation_line(index as int, *self),
    {
        let mut s = String::from_str("Réservation ");
        s.append(decimal_text((index + 1) as u64).as_str());
        s.append(": ");
        s.append(self.item.as_str());
        s.append(" - Du ");
        s.append(date_text(self.start_date).as_str());
        s.append(" au ");
        s.append(date_text(self.end_date).as_str());
        s.append(" (");
        s.append(decimal_text(self.duration).as_str());
        s.append(" jour(s))");
        s
    }

    /// The message that confirms this reservation.
    pub fn confirmation(&self) -> (r: String)
        requires
            self.wf(),
        ensures
            r@ == confirmation_text(*self),
    {
        let mut s = String::from_str("Réservation confirmée pour ");
        s.append(self.item.as_str());
        s.append(" du ");
        s.append(date_text(self.start_date).as_str());
        s.append(" pour ");
        s.append(decimal_text(self.duration).as_str());
        s.append(" jour(s)");
        s
    }
}

/// Decides whether `r` stands in the way of reserving `item` from `start`
/// to `end`.
fn conflicts_with(r: &Reservation, item: &Vec<char>, start: Date, end: Date) -> (b: bool)
    ensures
        b == conflicts(*r, item@, start, end),
{
    let name = chars_of(r.item.as_str());
    same_ignoring_case(&name, item) && start.le(&r.end_date) && r.start_date.le(&end)
}

/// The reservations, kept in the order in which they were admitted.
pub struct ReservationBook {
    reservations: Vec<Reservation>,
}

impl View for ReservationBook {
    type V = Seq<Reservation>;

    closed spec fn view(&self) -> Seq<Reservation> {
        self.reservations@
    }
}

impl ReservationBook {
    /// Every reservation is well formed and no two of the same item share
    /// a day.
    pub open spec fn wf(&self) -> bool {
        &&& forall|i: int| 0 <= i < self@.len() ==> (#[trigger] self@[i]).wf()
        &&& no_conflicts(self@)
    }

    /// An empty book.
    pub fn new() -> (r: ReservationBook)
        ensures
            r@ == Seq::<Reservation>::empty(),
            r.wf(),
    {
        ReservationBook { reservations: Vec::new() }
    }

    /// The number of reservations held.
    pub fn len(&self) -> (r: usize)
        ensures
            r == self@.len(),
    {
        self.reservations.len()
    }

    /// The reservation at position `i`.
    pub fn get(&self, i: usize) -> (r: &Reservation)
        requires
            i < self@.len(),
        ensures
            *r == self@[i as int],
    {
        &self.reservations[i]
    }

    /// Decides whether some reservation of `item`, compared without regard
    /// to ASCII case, shares a day with the range from `start` to `end`.
    pub fn is_period_reserved(&self, start: Date, end: Date, item: &str) -> (r: bool)
        ensures
            r == period_reserved(self@, start, end, item@),
    {
        let name = chars_of(item);
        let mut i: usize = 0;
        while i < self.reservations.len()
            invariant
                i <= self@.len(),
                self@ == self.reservations@,
                name@ == item@,
                forall|k: int| 0 <= k < i ==> !conflicts(#[trigger] self@[k], item@, start, end),
            decreases self@.len() - i,
        {
            if conflicts_with(&self.reservations[i], &name, start, end) {
                return true;
            }
            i += 1;
        }
        false
    }

    /// Admits a reservation of `item` from `start` to `end` unless it
    /// conflicts with one already held; the book changes only when it is
    /// admitted, and then by appending it.
    pub fn admit_interval(&mut self, item: &str, start: Date, end: Date, duration: u64) -> (r: Result<
        Reservation,
        BookingError,
    >)
        requires
            old(self).wf(),
            start.wf(),
            end.wf(),
            start.spec_le(end),
            duration >= 1,
            date_after(start, duration - 1) == Some(end),
            day_number(end) == day_number(start) + duration - 1,
        ensures
            final(self).wf(),
            admitted(old(self)@, final(self)@, r, item@, start, end, duration),
            r matches Ok(res) ==> res.wf(),
    {
        if self.is_period_reserved(start, end, item) {
            return Err(BookingError::PeriodAlreadyReserved(String::from_str(item)));
        }
        let kept = Reservation { item: String::from_str(item), start_date: start, end_date: end, duration };
        let ghost before = self@;
        self.reservations.push(kept);
        proof {
            lemma_push_keeps_apart(before, kept);
            assert(self@.drop_last() =~= before);
        }
        Ok(Reservation { item: String::from_str(item), start_date: start, end_date: end, duration })
    }
}

impl ReservationBook {
    /// Handles a request to reserve `item` from the date written in `start`
    /// (`YYYY-MM-DD`) for the number of days written in `duration`. The
    /// request is validated first; the stay ends `duration - 1` days after
    /// it starts; it is admitted only when no reservation of the same item
    /// shares one of its days, and the book changes only then.
    pub fn make_reservation(&mut self, start: &str, duration: &str, item: &str) -> (r: Result<
        Reservation,
        BookingError,
    >)
        requires
            old(self).wf(),
        ensures
            final(self).wf(),
            reservation_outcome(old(self)@, final(self)@, r, start@, duration@, item@),
            r matches Ok(res) ==> res.wf(),
    {
        let (start_date, days) = match validate_request(start, duration) {
            Ok(p) => p,
            Err(e) => {
                return Err(e);
            },
        };
        let end_date = match last_day(start_date, days) {
            Some(e) => e,
            None => {
                return Err(BookingError::InvalidDuration);
            },
        };
        self.admit_interval(item, start_date, end_date, days)
    }

    /// The listing of the book: one line per reservation in the order of
    /// admission, numbered from 1, or a single line when it is empty.
    pub fn list_reservations(&self) -> (r: Vec<String>)
        requires
            self.wf(),
        ensures
            lists(self@, r@),
    {
        let mut out: Vec<String> = Vec::new();
        if self.reservations.len() == 0 {
            out.push(String::from_str("Aucune réservation"));
            return out;
        }
        let mut i: usize = 0;
        while i < self.reservations.len()
            invariant
                self.wf(),
                self@ == self.reservations@,
                self@.len() > 0,
                i <= self@.len(),
                out@.len() == i,
                forall|k: int| 0 <= k < i ==> (#[trigger] out@[k])@ == listing(self@)[k],
            decreases self@.len() - i,
        {
            let line = self.reservations[i].display(i);
            out.push(line);
            i += 1;
        }
        out
    }
}

/// Listing a book twice, with no admission in between, gives the same
/// lines.
pub proof fn lemma_listing_idempotent(rs: Seq<Reservation>, first: Seq<String>, second: Seq<String>)
    requires
        lists(rs, first),
        lists(rs, second),
    ensures
        first.len() == second.len(),
        forall|i: int| 0 <= i < first.len() ==> (#[trigger] first[i])@ == second[i]@,
{
}

/// Appending a reservation that conflicts with none held keeps the held
/// reservations pairwise apart.
proof fn lemma_push_keeps_apart(rs: Seq<Reservation>, r: Reservation)
    requires
        no_conflicts(rs),
        !period_reserved(rs, r.start_date, r.end_date, r.item@),
    ensures
        no_conflicts(rs.push(r)),
{
    let s = rs.push(r);
    assert forall|i: int, j: int| 0 <= i < j < s.len() implies !conflicts(
        #[trigger] s[j],
        s[i].item@,
        #[trigger] s[i].start_date,
        s[i].end_date,
    ) by {
        if j == rs.len() {
            assert(s[i] == rs[i]);
            assert(!conflicts(rs[i], r.item@, r.start_date, r.end_date));
            lemma_overlap_symmetric(r.start_date, r.end_date, rs[i].start_date, rs[i].end_date);
            lemma_same_item_symmetric(rs[i].item@, r.item@);
        } else {
            assert(s[i] == rs[i] && s[j] == rs[j]);
        }
    }
}

/// Overlap of two day ranges does not depend on the order in which they
/// are given.
pub proof fn lemma_overlap_symmetric(s1: Date, e1: Date, s2: Date, e2: Date)
    ensures
        overlaps(s1, e1, s2, e2) == overlaps(s2, e2, s1, e1),
{
}

/// Two item names match without regard to ASCII case in either order.
pub proof fn lemma_same_item_symmetric(a: Seq<char>, b: Seq<char>)
    ensures
        same_ignoring_ascii_case(a, b) == same_ignoring_ascii_case(b, a),
{
}

} // verus!
