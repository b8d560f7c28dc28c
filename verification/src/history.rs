//! The request history: an ordered, capacity-bounded log of past
//! exchanges, most recent first. Reading and writing its backing file
//! is the caller's part; the list's behavior is all here.
use vstd::prelude::*;
use chrono::{Datelike, Local, TimeZone, Timelike};
use crate::codec::{enc_history, parse_history_s};
use crate::model::{HistoryItem, HistoryItemView, HttpRequest, HttpResponse};
use crate::num::{dec_rep, push_decimal};
use crate::text::chars_to_string;
use crate::utils::text_formatter::pad2;

verus! {

/// The most entries the history keeps.
pub const MAX_HISTORY_ITEMS: usize = 50;

/// The ordered, bounded request history, most recent first.
#[derive(Debug, Clone)]
pub struct RequestHistory {
    items: Vec<HistoryItem>,
}

impl View for RequestHistory {
    type V = Seq<HistoryItemView>;

    closed spec fn view(&self) -> Seq<HistoryItemView> {
        Seq::new(self.items@.len(), |i: int| self.items@[i]@)
    }
}

/// Relies on std::time::SystemTime::now and
/// SystemTime::duration_since: whole seconds since the unix epoch,
/// clamped to the result type; never negative.
#[verifier::external_body]
fn now_unix_seconds() -> (r: i64)
    ensures
        r >= 0,
{
    let secs = std::time::SystemTime::now()
        .duration_since(std::time::UNIX_EPOCH)
        .map(|d| d.as_secs())
        .unwrap_or(0);
    if secs > i64::MAX as u64 {
        i64::MAX
    } else {
        secs as i64
    }
}

impl RequestHistory {
    /// An empty history.
    pub fn new() -> (r: Self)
        ensures
            r@ == Seq::<HistoryItemView>::empty(),
    {
        let r = Self { items: Vec::new() };
        proof {
            assert(r@ =~= Seq::<HistoryItemView>::empty());
        }
        r
    }

    /// A history holding the given items, oldest entries beyond the
    /// capacity dropped.
    pub fn from_items(items: Vec<HistoryItem>) -> (r: Self)
        ensures
            r@.len() == if items@.len() <= MAX_HISTORY_ITEMS {
                items@.len() as int
            } else {
                MAX_HISTORY_ITEMS as int
            },
            forall|i: int| 0 <= i < r@.len() ==> r@[i] == items@[i]@,
    {
        let mut items = items;
        if items.len() > MAX_HISTORY_ITEMS {
            items.truncate(MAX_HISTORY_ITEMS);
        }
        Self { items }
    }

    /// Prepends a new entry stamped with the given time; the entries
    /// behind it shift back one place, and the oldest one falls out
    /// once the capacity is reached. The whole new state is
    /// [`add_step`] of the old one.
    pub fn add_item_with_timestamp(
        &mut self,
        request: HttpRequest,
        response: HttpResponse,
        timestamp: i64,
    )
        ensures
            final(self)@ == add_step(
                old(self)@,
                HistoryItemView { request: request@, response: response@, timestamp },
            ),
            final(self)@.len() == if old(self)@.len() < MAX_HISTORY_ITEMS {
                old(self)@.len() as int + 1
            } else {
                MAX_HISTORY_ITEMS as int
            },
            final(self)@[0] == (HistoryItemView {
                request: request@,
                response: response@,
                timestamp,
            }),
            forall|i: int| 1 <= i < final(self)@.len() ==> final(self)@[i] == old(self)@[i - 1],
    {
        let item = HistoryItem { request, response, timestamp };
        let ghost itv = item@;
        self.items.insert(0, item);
        if self.items.len() > MAX_HISTORY_ITEMS {
            self.items.truncate(MAX_HISTORY_ITEMS);
        }
        proof {
            assert(final(self)@ =~= add_step(old(self)@, itv));
        }
    }

    /// Prepends a new entry stamped with the current wall-clock time
    /// in unix seconds. The caller persists afterwards; a persistence
    /// failure never rolls this back.
    pub fn add_item(&mut self, request: HttpRequest, response: HttpResponse)
        ensures
            final(self)@.len() == if old(self)@.len() < MAX_HISTORY_ITEMS {
                old(self)@.len() as int + 1
            } else {
                MAX_HISTORY_ITEMS as int
            },
            final(self)@[0].request == request@,
            final(self)@[0].response == response@,
            final(self)@[0].timestamp >= 0,
            forall|i: int| 1 <= i < final(self)@.len() ==> final(self)@[i] == old(self)@[i - 1],
    {
        let timestamp = now_unix_seconds();
        self.add_item_with_timestamp(request, response, timestamp);
    }

    /// All entries, most recent first.
    pub fn get_items(&self) -> (r: &[HistoryItem])
        ensures
            r@.len() == self@.len(),
            forall|i: int| 0 <= i < r@.len() ==> (#[trigger] r@[i])@ == self@[i],
    {
        self.items.as_slice()
    }

    /// The entry at `index`, if there is one.
    pub fn get_item(&self, index: usize) -> (r: Option<&HistoryItem>)
        ensures
            match r {
                Some(item) => index < self@.len() && item@ == self@[index as int],
                None => index >= self@.len(),
            },
    {
        if index < self.items.len() {
            Some(&self.items[index])
        } else {
            None
        }
    }

    /// Empties the history. The caller persists the empty list.
    pub fn clear(&mut self)
        ensures
            final(self)@ == Seq::<HistoryItemView>::empty(),
    {
        self.items.clear();
        proof {
            assert(final(self)@ =~= Seq::<HistoryItemView>::empty());
        }
    }

    pub fn len(&self) -> (r: usize)
        ensures
            r == self@.len(),
    {
        self.items.len()
    }

    pub fn is_empty(&self) -> (r: bool)
        ensures
            r == (self@.len() == 0),
    {
        self.items.is_empty()
    }

    /// The history in its persisted form, ready to be written out
    /// whole. Parsing this text gives back exactly these entries
    /// (see `codec::lemma_history_round_trip`).
    pub fn to_persisted_text(&self) -> (r: String)
        ensures
            r@ == enc_history(self@),
    {
        let r = crate::codec::encode_history(&self.items);
        proof {
            assert(Seq::new(self.items@.len(), |i: int| self.items@[i]@) =~= self@);
        }
        r
    }

    /// Rebuilds a store from persisted text: well-formed text gives
    /// back its entries, oldest ones beyond the capacity dropped;
    /// anything else — a missing or corrupt file — gives the empty
    /// history rather than an error.
    pub fn from_persisted_text(text: &str) -> (r: Self)
        ensures
            match parse_history_s(text@) {
                Some(items) => {
                    &&& r@.len() == if items.len() <= MAX_HISTORY_ITEMS {
                        items.len() as int
                    } else {
                        MAX_HISTORY_ITEMS as int
                    }
                    &&& forall|i: int| 0 <= i < r@.len() ==> r@[i] == items[i]
                },
                None => r@ == Seq::<HistoryItemView>::empty(),
            },
    {
        match crate::codec::parse_history(text) {
            Some(items) => {
                let r = Self::from_items(items);
                r
            },
            None => Self::new(),
        }
    }
}

/// One addition's effect on the stored entries: the new entry in
/// front, and the oldest entry dropped once the capacity is passed.
pub open spec fn add_step(h: Seq<HistoryItemView>, it: HistoryItemView) -> Seq<HistoryItemView> {
    let grown = seq![it] + h;
    if grown.len() <= MAX_HISTORY_ITEMS {
        grown
    } else {
        grown.subrange(0, MAX_HISTORY_ITEMS as int)
    }
}

/// The effect of a run of additions, first addition first.
pub open spec fn add_all(h: Seq<HistoryItemView>, adds: Seq<HistoryItemView>) -> Seq<
    HistoryItemView,
>
    decreases adds.len(),
{
    if adds.len() == 0 {
        h
    } else {
        add_all(add_step(h, adds[0]), adds.drop_first())
    }
}

/// What a run of additions leaves: the additions stand in front,
/// newest first, and what the capacity still admits of the earlier
/// entries follows behind, shifted.
pub proof fn lemma_add_all(h: Seq<HistoryItemView>, adds: Seq<HistoryItemView>)
    requires
        h.len() <= MAX_HISTORY_ITEMS,
    ensures
        add_all(h, adds).len() == if h.len() + adds.len() <= MAX_HISTORY_ITEMS {
            h.len() + adds.len() as int
        } else {
            MAX_HISTORY_ITEMS as int
        },
        forall|i: int|
            0 <= i < add_all(h, adds).len() && i < adds.len() ==> #[trigger] add_all(h, adds)[i]
                == adds[adds.len() - 1 - i],
        forall|i: int|
            adds.len() <= i < add_all(h, adds).len() ==> #[trigger] add_all(h, adds)[i] == h[i
                - adds.len()],
    decreases adds.len(),
{
    if adds.len() > 0 {
        let h2 = add_step(h, adds[0]);
        let rest = adds.drop_first();
        assert(h2.len() <= MAX_HISTORY_ITEMS);
        assert(h2[0] == adds[0]);
        assert(forall|j: int| 1 <= j < h2.len() ==> #[trigger] h2[j] == h[j - 1]);
        lemma_add_all(h2, rest);
        assert(add_all(h, adds) == add_all(h2, rest));
        assert(forall|k: int| 0 <= k < rest.len() ==> #[trigger] rest[k] == adds[k + 1]);
        let result = add_all(h, adds);
        let n = adds.len() as int;
        assert forall|i: int|
            0 <= i < result.len() && i < n implies #[trigger] result[i] == adds[n - 1 - i] by {
            if i < n - 1 {
                assert(result[i] == rest[rest.len() - 1 - i]);
            } else {
                assert(i == n - 1);
                assert(result[i] == h2[i - rest.len()]);
                assert(h2[0] == adds[0]);
            }
        }
        assert forall|i: int| n <= i < result.len() implies #[trigger] result[i] == h[i - n] by {
            assert(result[i] == h2[i - rest.len()]);
            assert(i - rest.len() >= 1);
            assert(h2[i - rest.len()] == h[i - rest.len() - 1]);
        }
    }
}

/// The capacity property of successive additions: from an empty
/// history, one more addition than the capacity holds leaves exactly
/// the latest additions, newest first — the first addition's entry
/// has fallen out, and where it differs from every later addition no
/// stored entry equals it. (Where a later addition repeats the first
/// one exactly, an equal entry legitimately remains.)
pub proof fn lemma_first_added_entry_dropped(adds: Seq<HistoryItemView>)
    requires
        adds.len() == MAX_HISTORY_ITEMS + 1,
    ensures
        add_all(Seq::empty(), adds).len() == MAX_HISTORY_ITEMS as int,
        forall|i: int|
            0 <= i < MAX_HISTORY_ITEMS ==> #[trigger] add_all(Seq::empty(), adds)[i] == adds[
                MAX_HISTORY_ITEMS - i
            ],
        (forall|k: int| 1 <= k <= MAX_HISTORY_ITEMS ==> #[trigger] adds[k] != adds[0])
            ==> forall|i: int|
            0 <= i < MAX_HISTORY_ITEMS ==> #[trigger] add_all(Seq::empty(), adds)[i] != adds[0],
{
    lemma_add_all(Seq::empty(), adds);
    let result = add_all(Seq::empty(), adds);
    assert forall|i: int|
        0 <= i < MAX_HISTORY_ITEMS implies #[trigger] result[i] == adds[MAX_HISTORY_ITEMS - i] by {
        assert(result[i] == adds[adds.len() - 1 - i]);
    }
    if forall|k: int| 1 <= k <= MAX_HISTORY_ITEMS ==> #[trigger] adds[k] != adds[0] {
        assert forall|i: int| 0 <= i < MAX_HISTORY_ITEMS implies #[trigger] result[i] != adds[0] by {
            assert(result[i] == adds[MAX_HISTORY_ITEMS - i]);
            assert(1 <= MAX_HISTORY_ITEMS - i <= MAX_HISTORY_ITEMS);
            assert(adds[MAX_HISTORY_ITEMS - i] != adds[0]);
        }
    }
}

/// Relies on chrono::TimeZone::timestamp_opt for the local zone, and
/// on chrono's Datelike and Timelike accessors: an in-range timestamp
/// resolves to exactly one local date-time whose fields lie in the
/// documented ranges (month 1-12, day 1-31, hour below 24, minute and
/// second below 60).
#[verifier::external_body]
fn local_time_parts(timestamp: i64) -> (r: Option<(i32, u32, u32, u32, u32, u32)>)
    ensures
        r matches Some(p) ==> 1 <= p.1 <= 12 && 1 <= p.2 <= 31 && p.3 < 24 && p.4 < 60 && p.5
            < 60,
{
    match Local.timestamp_opt(timestamp, 0) {
        chrono::LocalResult::Single(dt) => Some(
            (dt.year(), dt.month(), dt.day(), dt.hour(), dt.minute(), dt.second()),
        ),
        _ => None,
    }
}

/// The rendering `dd/mm/yyyy hh:mm:ss`: day, month, hour, minute and
/// second zero-padded to two digits; the year's magnitude zero-padded
/// to four, with a sign for years before year zero.
pub open spec fn timestamp_text(
    year: int,
    month: int,
    day: int,
    hour: int,
    minute: int,
    second: int,
) -> Seq<char> {
    pad2(day) + seq!['/'] + pad2(month) + seq!['/'] + year4(year) + seq![' '] + pad2(hour) + seq![
        ':',
    ] + pad2(minute) + seq![':'] + pad2(second)
}

pub open spec fn year4(year: int) -> Seq<char> {
    if year < 0 {
        seq!['-'] + pad4(-year)
    } else {
        pad4(year)
    }
}

pub open spec fn pad4(n: int) -> Seq<char> {
    if n < 10 {
        seq!['0', '0', '0'] + dec_rep(n as nat)
    } else if n < 100 {
        seq!['0', '0'] + dec_rep(n as nat)
    } else if n < 1000 {
        seq!['0'] + dec_rep(n as nat)
    } else {
        dec_rep(n as nat)
    }
}

fn push_two(out: &mut Vec<char>, n: u32)
    requires
        n < 100,
    ensures
        final(out)@ == old(out)@ + pad2(n as int),
{
    if n < 10 {
        out.push('0');
    }
    push_decimal(n as u128, out);
    proof {
        assert(final(out)@ =~= old(out)@ + pad2(n as int));
    }
}

fn push_four(out: &mut Vec<char>, n: u32)
    ensures
        final(out)@ == old(out)@ + pad4(n as int),
{
    if n < 10 {
        out.push('0');
        out.push('0');
        out.push('0');
    } else if n < 100 {
        out.push('0');
        out.push('0');
    } else if n < 1000 {
        out.push('0');
    }
    push_decimal(n as u128, out);
    proof {
        assert(final(out)@ =~= old(out)@ + pad4(n as int));
    }
}

impl RequestHistory {
    /// Renders date-time fields as `dd/mm/yyyy hh:mm:ss`.
    #[verifier::rlimit(100)]
    pub fn format_timestamp_parts(
        year: i32,
        month: u32,
        day: u32,
        hour: u32,
        minute: u32,
        second: u32,
    ) -> (r: String)
        requires
            month < 100,
            day < 100,
            hour < 100,
            minute < 100,
            second < 100,
        ensures
            r@ == timestamp_text(
                year as int,
                month as int,
                day as int,
                hour as int,
                minute as int,
                second as int,
            ),
    {
        let mut out: Vec<char> = Vec::new();
        push_two(&mut out, day);
        out.push('/');
        push_two(&mut out, month);
        out.push('/');
        if year < 0 {
            out.push('-');
            let m: u32 = if year == i32::MIN {
                0x80000000u32
            } else {
                (-year) as u32
            };
            proof {
                assert(m as int == -(year as int));
            }
            push_four(&mut out, m);
        } else {
            push_four(&mut out, year as u32);
        }
        out.push(' ');
        push_two(&mut out, hour);
        out.push(':');
        push_two(&mut out, minute);
        out.push(':');
        push_two(&mut out, second);
        proof {
            assert(out@ =~= timestamp_text(
                year as int,
                month as int,
                day as int,
                hour as int,
                minute as int,
                second as int,
            ));
        }
        chars_to_string(&out)
    }

    /// Renders a unix timestamp as a local date-time,
    /// `dd/mm/yyyy hh:mm:ss`; a timestamp outside the calendar's
    /// range reads as empty. What the fields are depends on the
    /// machine's time zone, so only the shape is promised here; the
    /// rendering itself is pinned by `format_timestamp_parts`.
    pub fn format_timestamp(timestamp: i64) -> (r: String)
        ensures
            (exists|y: int, mo: int, d: int, h: int, mi: int, sec: int|
                r@ == timestamp_text(y, mo, d, h, mi, sec)) || r@ == Seq::<char>::empty(),
    {
        match local_time_parts(timestamp) {
            Some((year, month, day, hour, minute, second)) => {
                let r = Self::format_timestamp_parts(year, month, day, hour, minute, second);
                proof {
                    assert(r@ == timestamp_text(
                        year as int,
                        month as int,
                        day as int,
                        hour as int,
                        minute as int,
                        second as int,
                    ));
                }
                r
            },
            None => String::new(),
        }
    }
}

impl Default for RequestHistory {
    fn default() -> (r: Self)
        ensures
            r@ == Seq::<HistoryItemView>::empty(),
    {
        RequestHistory::new()
    }
}

} // verus!
