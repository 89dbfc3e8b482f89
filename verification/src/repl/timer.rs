//! The timer commands: `:delete` of a timer, the timer list, and `:show`,
//! the time spent today by category.

use vstd::prelude::*;
use crate::arith::{div_trunc, rem_trunc, trunc_div, trunc_rem};
use crate::models::timer::Timer;
use crate::repl::{replies, Plan, StoreOp};
use crate::repl::task::{id_of_arg, lemma_spread_shape, read_id, spread, spread_line};
use crate::text::{
    i64_to_text, int_text, lemma_int_text_short, pad_left, pad_right, push_padded_left,
    push_padded_right, push_repeated, push_text, repeated, text_eq, text_of,
};
use crate::time::{minutes_between, minutes_from};

verus! {

broadcast use vstd::seq_lib::group_seq_properties;

/// `:delete <id>`: removes the timer with that id.
pub fn delete(id: &str) -> (p: Plan)
    ensures
        match id_of_arg(id@) {
            None => replies(p, "Usage: :delete <task id>"@),
            Some(v) => if v <= 0 {
                replies(p, "Couldn't find task."@)
            } else {
                p == Plan::Store(StoreOp::DeleteTimer(v))
            },
        },
{
    match read_id(id) {
        None => Plan::Reply(text_of("Usage: :delete <task id>")),
        Some(v) => if v <= 0 {
            Plan::Reply(text_of("Couldn't find task."))
        } else {
            Plan::Store(StoreOp::DeleteTimer(v))
        },
    }
}

/// `:end <id>`: ends the timer with that id.
pub fn end(id: &str) -> (p: Plan)
    ensures
        match id_of_arg(id@) {
            None => replies(p, "Usage: :end <timer id>"@),
            Some(v) => if v <= 0 {
                replies(p, "Couldn't find timer."@)
            } else {
                p == Plan::Store(StoreOp::EndTimer(v))
            },
        },
{
    match read_id(id) {
        None => Plan::Reply(text_of("Usage: :end <timer id>")),
        Some(v) => if v <= 0 {
            Plan::Reply(text_of("Couldn't find timer."))
        } else {
            Plan::Store(StoreOp::EndTimer(v))
        },
    }
}

/// How a timer's start and end are shown: both in the local time zone, the
/// end only once the timer is ended.
#[derive(Debug)]
pub struct TimesShown {
    pub start: String,
    pub end: Option<String>,
}

/// The line listing a timer: note, category and times, and the id at the
/// right end of the width.
pub open spec fn timer_line(t: Timer, shown: TimesShown, width: nat) -> Seq<char> {
    let end = match shown.end {
        Some(e) => e@,
        None => "Not ended"@,
    };
    spread(
        width,
        t.note@ + " ("@ + t.category@ + ") ["@ + shown.start@ + " - "@ + end + "]"@,
        "id: "@ + int_text(t.id as int),
    )
}

/// The texts of a listed timer are short enough for a line's two ends to be countable.
pub open spec fn listable_timer(t: Timer, shown: TimesShown) -> bool {
    let end_len = match shown.end {
        Some(e) => e@.len(),
        None => 0,
    };
    t.note@.len() + t.category@.len() + shown.start@.len() + end_len + 64 <= usize::MAX
}

/// The lines of the timer list laid out in `width`, with each timer's times
/// as shown: one per timer, in order, or a single line saying there are none.
pub fn list(timers: &Vec<Timer>, shown: &Vec<TimesShown>, width: usize) -> (lines: Vec<String>)
    requires
        shown@.len() == timers@.len(),
        forall|i: int| 0 <= i < timers@.len() ==> listable_timer(#[trigger] timers@[i], shown@[i]),
    ensures
        timers@.len() == 0 ==> lines@.len() == 1 && lines@[0]@ == "⏱  No timers found."@,
        timers@.len() > 0 ==> {
            &&& lines@.len() == timers@.len()
            &&& forall|i: int| 0 <= i < timers@.len() ==> (#[trigger] lines@[i])@ == timer_line(timers@[i], shown@[i], width as nat)
        },
{
    let mut lines: Vec<String> = Vec::new();
    if timers.len() == 0 {
        lines.push(text_of("⏱  No timers found."));
        return lines;
    }
    let mut i: usize = 0;
    while i < timers.len()
        invariant
            i <= timers@.len() == shown@.len(),
            lines@.len() == i,
            forall|j: int| 0 <= j < timers@.len() ==> listable_timer(#[trigger] timers@[j], shown@[j]),
            forall|j: int| 0 <= j < i ==> (#[trigger] lines@[j])@ == timer_line(timers@[j], shown@[j], width as nat),
        decreases timers.len() - i,
    {
        let t = &timers[i];
        let s = &shown[i];
        assert(listable_timer(timers@[i as int], shown@[i as int]));
        let mut left = text_of(t.note.as_str());
        push_text(&mut left, " (");
        push_text(&mut left, t.category.as_str());
        push_text(&mut left, ") [");
        push_text(&mut left, s.start.as_str());
        push_text(&mut left, " - ");
        match &s.end {
            Some(e) => push_text(&mut left, e.as_str()),
            None => push_text(&mut left, "Not ended"),
        }
        push_text(&mut left, "]");
        let mut right = text_of("id: ");
        let digits = i64_to_text(t.id);
        push_text(&mut right, digits.as_str());
        proof {
            reveal_strlit(" (");
            reveal_strlit(") [");
            reveal_strlit(" - ");
            reveal_strlit("]");
            reveal_strlit("Not ended");
            reveal_strlit("id: ");
            lemma_int_text_short(t.id as int);
        }
        let line = spread_line(width, left.as_str(), right.as_str());
        lines.push(line);
        i = i + 1;
    }
    lines
}

// ---------------------------------------------------------------------------
// Time spent by category

/// The minutes of an ended timer under its category; nothing for a running one.
pub open spec fn entry_of(t: Timer) -> Option<(Seq<char>, int)> {
    match t.end_time {
        Some(e) => Some(
            (
                t.category@,
                minutes_from(t.start_time, e),
            ),
        ),
        None => None,
    }
}

/// The (category, minutes) of the ended timers, in order.
pub open spec fn ended_entries(timers: Seq<Timer>) -> Seq<(Seq<char>, int)> {
    timers.filter_map(|t: Timer| entry_of(t))
}

/// `p` is the first place of `cat` among the categories of `acc`.
pub open spec fn first_place(acc: Seq<(Seq<char>, int)>, cat: Seq<char>, p: int) -> bool {
    &&& 0 <= p < acc.len()
    &&& acc[p].0 == cat
    &&& forall|k: int| 0 <= k < p ==> acc[k].0 != cat
}

/// `acc` with `m` more minutes under `cat`: added to its total where it has
/// one, else a new total at the end.
pub open spec fn add_minutes(acc: Seq<(Seq<char>, int)>, cat: Seq<char>, m: int) -> Seq<
    (Seq<char>, int),
> {
    if exists|p: int| first_place(acc, cat, p) {
        let p = choose|p: int| first_place(acc, cat, p);
        acc.update(p, (cat, acc[p].1 + m))
    } else {
        acc.push((cat, m))
    }
}

/// The total minutes of each category, categories in order of first appearance.
pub open spec fn category_totals_of(entries: Seq<(Seq<char>, int)>) -> Seq<(Seq<char>, int)>
    decreases entries.len(),
{
    if entries.len() == 0 {
        Seq::empty()
    } else {
        add_minutes(
            category_totals_of(entries.drop_last()),
            entries.last().0,
            entries.last().1,
        )
    }
}

/// Every total is an `i64`.
pub open spec fn all_i64(acc: Seq<(Seq<char>, int)>) -> bool {
    forall|k: int| 0 <= k < acc.len() ==> i64::MIN <= #[trigger] acc[k].1 <= i64::MAX
}

/// Every running total, as the entries are added one by one, is an `i64`.
pub open spec fn totals_fit(entries: Seq<(Seq<char>, int)>) -> bool
    decreases entries.len(),
{
    entries.len() == 0 || (totals_fit(entries.drop_last()) && all_i64(category_totals_of(entries)))
}

/// A category's total minutes.
#[derive(Debug)]
pub struct CategoryTime {
    pub category: String,
    pub minutes: i64,
}

/// The (category, minutes) that a list of totals holds.
pub open spec fn totals_view(v: Seq<CategoryTime>) -> Seq<(Seq<char>, int)> {
    v.map_values(|c: CategoryTime| (c.category@, c.minutes as int))
}

proof fn lemma_first_place_unique(acc: Seq<(Seq<char>, int)>, cat: Seq<char>, p: int, q: int)
    requires
        first_place(acc, cat, p),
        first_place(acc, cat, q),
    ensures
        p == q,
{
}

proof fn lemma_unfit_extends(timers: Seq<Timer>, i: int)
    requires
        0 <= i <= timers.len(),
        !totals_fit(ended_entries(timers.take(i))),
    ensures
        !totals_fit(ended_entries(timers)),
    decreases timers.len() - i,
{
    if i == timers.len() {
        assert(timers.take(i) == timers);
    } else {
        timers.lemma_filter_map_take_succ(|t: Timer| entry_of(t), i);
        let e = ended_entries(timers.take(i));
        let e2 = ended_entries(timers.take(i + 1));
        if e2.len() != e.len() {
            assert(e2.drop_last() == e);
        } else {
            assert(e2 == e);
        }
        lemma_unfit_extends(timers, i + 1);
    }
}

/// Where `cat` first stands among the totals, if it does.
fn find_category(acc: &Vec<CategoryTime>, cat: &str) -> (p: Option<usize>)
    ensures
        p matches Some(i) ==> first_place(totals_view(acc@), cat@, i as int),
        p is None ==> !(exists|i: int| first_place(totals_view(acc@), cat@, i)),
{
    let mut j: usize = 0;
    while j < acc.len()
        invariant
            j <= acc@.len(),
            forall|k: int| 0 <= k < j ==> totals_view(acc@)[k].0 != cat@,
        decreases acc.len() - j,
    {
        if text_eq(acc[j].category.as_str(), cat) {
            return Some(j);
        }
        j = j + 1;
    }
    None
}

/// The total minutes of the ended timers by category, categories in order
/// of first appearance; `None` where a running total leaves the `i64` range.
pub fn category_totals(timers: &Vec<Timer>) -> (r: Option<Vec<CategoryTime>>)
    requires
        forall|i: int| 0 <= i < timers@.len() ==> (#[trigger] timers@[i]).times_valid(),
    ensures
        r is Some <==> totals_fit(ended_entries(timers@)),
        r matches Some(v) ==> totals_view(v@) == category_totals_of(ended_entries(timers@)),
{
    let mut acc: Vec<CategoryTime> = Vec::new();
    let mut i: usize = 0;
    assert(timers@.take(0) == Seq::<Timer>::empty());
    while i < timers.len()
        invariant
            i <= timers@.len(),
            forall|k: int| 0 <= k < timers@.len() ==> (#[trigger] timers@[k]).times_valid(),
            totals_fit(ended_entries(timers@.take(i as int))),
            totals_view(acc@) == category_totals_of(ended_entries(timers@.take(i as int))),
        decreases timers.len() - i,
    {
        proof {
            timers@.lemma_filter_map_take_succ(|t: Timer| entry_of(t), i as int);
        }
        let t = &timers[i];
        assert(timers@[i as int].times_valid());
        let ghost before = ended_entries(timers@.take(i as int));
        let ghost after = ended_entries(timers@.take(i + 1));
        match &t.end_time {
            None => {
                assert(after == before);
            },
            Some(end) => {
                let m = minutes_between(&t.start_time, end);
                let ghost entry = (t.category@, m as int);
                assert(after == before.push(entry));
                assert(after.drop_last() == before);
                assert(after.last() == entry);
                let ghost old_view = totals_view(acc@);
                match find_category(&acc, t.category.as_str()) {
                    Some(p) => {
                        let cur = acc[p].minutes;
                        proof {
                            let q = choose|q: int| first_place(old_view, t.category@, q);
                            lemma_first_place_unique(old_view, t.category@, p as int, q);
                        }
                        if (m > 0 && cur > i64::MAX - m) || (m < 0 && cur < i64::MIN - m) {
                            proof {
                                assert(!all_i64(category_totals_of(after))) by {
                                    assert(category_totals_of(after)[p as int].1 == cur + m);
                                }
                                lemma_unfit_extends(timers@, i + 1);
                            }
                            return None;
                        }
                        let name = text_of(t.category.as_str());
                        acc.set(p, CategoryTime { category: name, minutes: cur + m });
                        assert(totals_view(acc@) == old_view.update(p as int, (t.category@, cur + m)));
                    },
                    None => {
                        acc.push(CategoryTime { category: text_of(t.category.as_str()), minutes: m });
                        assert(totals_view(acc@) == old_view.push(entry));
                    },
                }
                assert(all_i64(category_totals_of(after))) by {
                    assert(category_totals_of(after) == totals_view(acc@));
                }
            },
        }
        i = i + 1;
    }
    assert(timers@.take(timers@.len() as int) == timers@);
    Some(acc)
}

/// The sum of the minutes of a list of (category, minutes).
pub open spec fn minutes_sum(s: Seq<(Seq<char>, int)>) -> int
    decreases s.len(),
{
    if s.len() == 0 {
        0
    } else {
        minutes_sum(s.drop_last()) + s.last().1
    }
}

/// Some entry of `s` is under the category `c`.
pub open spec fn has_category(s: Seq<(Seq<char>, int)>, c: Seq<char>) -> bool {
    exists|i: int| 0 <= i < s.len() && s[i].0 == c
}

proof fn lemma_first_place_exists(acc: Seq<(Seq<char>, int)>, cat: Seq<char>, i: int)
    requires
        0 <= i < acc.len(),
        acc[i].0 == cat,
    ensures
        exists|p: int| first_place(acc, cat, p),
    decreases i,
{
    if exists|k: int| 0 <= k < i && acc[k].0 == cat {
        let k = choose|k: int| 0 <= k < i && acc[k].0 == cat;
        lemma_first_place_exists(acc, cat, k);
    } else {
        assert(first_place(acc, cat, i));
    }
}

proof fn lemma_sum_update(s: Seq<(Seq<char>, int)>, p: int, x: (Seq<char>, int))
    requires
        0 <= p < s.len(),
    ensures
        minutes_sum(s.update(p, x)) == minutes_sum(s) - s[p].1 + x.1,
    decreases s.len(),
{
    let u = s.update(p, x);
    if p == s.len() - 1 {
        assert(u.drop_last() == s.drop_last());
    } else {
        lemma_sum_update(s.drop_last(), p, x);
        assert(u.drop_last() == s.drop_last().update(p, x));
    }
}

proof fn lemma_add_minutes(acc: Seq<(Seq<char>, int)>, cat: Seq<char>, m: int)
    ensures
        minutes_sum(add_minutes(acc, cat, m)) == minutes_sum(acc) + m,
        forall|c: Seq<char>|
            #[trigger] has_category(add_minutes(acc, cat, m), c) <==> (c == cat || has_category(acc, c)),
        (forall|i: int, j: int| 0 <= i < j < acc.len() ==> acc[i].0 != acc[j].0) ==> (forall|
            i: int,
            j: int,
        |
            0 <= i < j < add_minutes(acc, cat, m).len() ==> add_minutes(acc, cat, m)[i].0
                != add_minutes(acc, cat, m)[j].0),
{
    let r = add_minutes(acc, cat, m);
    if exists|p: int| first_place(acc, cat, p) {
        let p = choose|p: int| first_place(acc, cat, p);
        lemma_sum_update(acc, p, (cat, acc[p].1 + m));
        assert forall|c: Seq<char>| #[trigger] has_category(r, c) <==> (c == cat || has_category(acc, c)) by {
            if c == cat {
                assert(r[p].0 == c);
            }
            if exists|i: int| 0 <= i < acc.len() && acc[i].0 == c {
                let i = choose|i: int| 0 <= i < acc.len() && acc[i].0 == c;
                assert(r[i].0 == c);
            }
            if exists|i: int| 0 <= i < r.len() && r[i].0 == c {
                let i = choose|i: int| 0 <= i < r.len() && r[i].0 == c;
                assert(acc[i].0 == c);
            }
        }
    } else {
        assert forall|i: int| 0 <= i < acc.len() implies acc[i].0 != cat by {
            if acc[i].0 == cat {
                lemma_first_place_exists(acc, cat, i);
            }
        }
        assert(r.drop_last() == acc);
        assert forall|c: Seq<char>| #[trigger] has_category(r, c) <==> (c == cat || has_category(acc, c)) by {
            if c == cat {
                assert(r[acc.len() as int].0 == c);
            }
            if exists|i: int| 0 <= i < acc.len() && acc[i].0 == c {
                let i = choose|i: int| 0 <= i < acc.len() && acc[i].0 == c;
                assert(r[i].0 == c);
            }
            if exists|i: int| 0 <= i < r.len() && r[i].0 == c {
                let i = choose|i: int| 0 <= i < r.len() && r[i].0 == c;
                if i < acc.len() {
                    assert(acc[i].0 == c);
                }
            }
        }
    }
}

/// The totals add up to the minutes of all the entries, and every category
/// has one total: a category has a total exactly where some entry has it,
/// and no two totals have the same category.
pub proof fn lemma_category_totals(entries: Seq<(Seq<char>, int)>)
    ensures
        minutes_sum(category_totals_of(entries)) == minutes_sum(entries),
        forall|i: int, j: int|
            0 <= i < j < category_totals_of(entries).len() ==> category_totals_of(entries)[i].0
                != category_totals_of(entries)[j].0,
        forall|c: Seq<char>|
            #[trigger] has_category(category_totals_of(entries), c) <==> has_category(entries, c),
    decreases entries.len(),
{
    if entries.len() > 0 {
        let rest = entries.drop_last();
        lemma_category_totals(rest);
        lemma_add_minutes(category_totals_of(rest), entries.last().0, entries.last().1);
        assert forall|c: Seq<char>| #[trigger] has_category(entries, c) <==> (c == entries.last().0
            || has_category(rest, c)) by {
            if exists|i: int| 0 <= i < entries.len() && entries[i].0 == c {
                let i = choose|i: int| 0 <= i < entries.len() && entries[i].0 == c;
                if i < rest.len() {
                    assert(rest[i].0 == c);
                }
            }
            if exists|i: int| 0 <= i < rest.len() && rest[i].0 == c {
                let i = choose|i: int| 0 <= i < rest.len() && rest[i].0 == c;
                assert(entries[i].0 == c);
            }
        }
    } else {
        assert(category_totals_of(entries) == Seq::<(Seq<char>, int)>::empty());
    }
}

/// The largest total, or 1 where there is none.
pub open spec fn peak(tot: Seq<(Seq<char>, int)>) -> int
    decreases tot.len(),
{
    if tot.len() == 0 {
        1
    } else if tot.len() == 1 {
        tot[0].1
    } else {
        let rest = peak(tot.drop_last());
        if tot.last().1 > rest {
            tot.last().1
        } else {
            rest
        }
    }
}

/// The length of a category's bar: its minutes times twenty over the
/// largest total, rounded toward zero, and at least one.
pub open spec fn bar_len(m: int, top: int) -> int {
    let q = trunc_div(m * 20, top);
    if q > 1 {
        q
    } else {
        1
    }
}

/// Why drawing the summary stops where it stops, as Rust's checked
/// arithmetic and `str::repeat` would.
#[derive(Clone, Copy, Debug, PartialEq, Eq, Structural)]
pub enum DayFailure {
    /// a category's running total leaves the `i64` range
    SumOverflow,
    /// a total times twenty leaves the `i64` range
    MultiplyOverflow,
    /// the largest total is zero
    DivideByZero,
    /// a bar is too long to allocate
    CapacityOverflow,
}

/// What stops the line of a category with `m` minutes, the largest total being `top`.
pub open spec fn render_failure(m: int, top: int) -> Option<DayFailure> {
    if m * 20 < i64::MIN || m * 20 > i64::MAX {
        Some(DayFailure::MultiplyOverflow)
    } else if top == 0 {
        Some(DayFailure::DivideByZero)
    } else if 3 * bar_len(m, top) > isize::MAX {
        Some(DayFailure::CapacityOverflow)
    } else {
        None
    }
}

/// The summary line of a category: its name, its bar, and its hours and minutes.
pub open spec fn day_line(cat: Seq<char>, m: int, top: int) -> Seq<char> {
    pad_right(cat, 10) + " | "@ + pad_right(repeated('█', bar_len(m, top) as nat), 20) + " "@
        + pad_left(int_text(trunc_div(m, 60)), 2) + "h "@ + pad_left(int_text(trunc_rem(m, 60)), 2)
        + "m"@
}

/// The heading line of the summary.
pub open spec fn day_heading() -> Seq<char> {
    "\n🧱 Time Spent Today by Category:\n"@
}

/// The lines that the summary prints, and why it stops early if it does.
#[derive(Debug)]
pub struct DayReport {
    pub lines: Vec<String>,
    pub failure: Option<DayFailure>,
}

/// `r` shows the totals `tot`: the heading, then one line per category in
/// order, stopping at the first category whose line cannot be drawn.
pub open spec fn shows_totals(r: DayReport, tot: Seq<(Seq<char>, int)>) -> bool {
    let top = peak(tot);
    let k = r.lines@.len() - 1;
    &&& r.lines@.len() >= 1
    &&& r.lines@[0]@ == day_heading()
    &&& k <= tot.len()
    &&& forall|j: int| 0 <= j < k ==> render_failure(#[trigger] tot[j].1, top) is None
    &&& forall|j: int| 0 <= j < k ==> (#[trigger] r.lines@[j + 1])@ == day_line(tot[j].0, tot[j].1, top)
    &&& k == tot.len() ==> r.failure is None
    &&& k < tot.len() ==> r.failure == render_failure(tot[k].1, top) && r.failure is Some
}

fn largest(tot: &Vec<CategoryTime>) -> (top: i64)
    ensures
        top == peak(totals_view(tot@)),
{
    if tot.len() == 0 {
        return 1;
    }
    let mut top = tot[0].minutes;
    let mut j: usize = 1;
    assert(totals_view(tot@).take(1) == seq![totals_view(tot@)[0]]);
    while j < tot.len()
        invariant
            1 <= j <= tot@.len(),
            top == peak(totals_view(tot@).take(j as int)),
        decreases tot.len() - j,
    {
        let ghost v = totals_view(tot@);
        assert(v.take(j + 1).drop_last() == v.take(j as int));
        if tot[j].minutes > top {
            top = tot[j].minutes;
        }
        j = j + 1;
    }
    assert(totals_view(tot@).take(tot@.len() as int) == totals_view(tot@));
    top
}

/// The line of one category, or what stops it.
fn render_category(c: &CategoryTime, top: i64) -> (r: Result<String, DayFailure>)
    ensures
        r is Ok <==> render_failure(c.minutes as int, top as int) is None,
        r matches Ok(line) ==> line@ == day_line(c.category@, c.minutes as int, top as int),
        r matches Err(f) ==> render_failure(c.minutes as int, top as int) == Some(f),
{
    let m = c.minutes;
    if m > 461168601842738790 || m < -461168601842738790 {
        return Err(DayFailure::MultiplyOverflow);
    }
    if top == 0 {
        return Err(DayFailure::DivideByZero);
    }
    let q = div_trunc(m * 20, top);
    let bar: i64 = if q > 1 { q } else { 1 };
    if 3 * (bar as i128) > isize::MAX as i128 {
        return Err(DayFailure::CapacityOverflow);
    }
    let mut line = String::new();
    push_padded_right(&mut line, c.category.as_str(), 10);
    push_text(&mut line, " | ");
    let mut bar_text = String::new();
    push_repeated(&mut bar_text, '█', bar as usize);
    push_padded_right(&mut line, bar_text.as_str(), 20);
    push_text(&mut line, " ");
    let hours = i64_to_text(div_trunc(m, 60));
    push_padded_left(&mut line, hours.as_str(), 2);
    push_text(&mut line, "h ");
    let rest = i64_to_text(rem_trunc(m, 60));
    push_padded_left(&mut line, rest.as_str(), 2);
    push_text(&mut line, "m");
    Ok(line)
}

/// `:show`: the time spent on each category today, from the day's timers:
/// a line saying there are none, or the heading and one line per category
/// with a bar scaled to the largest total. Where a sum or product leaves the
/// `i64` range, the largest total is zero, or a bar is too long to allocate,
/// the report says which, after the lines drawn up to that point.
pub fn show_day(timers: &Vec<Timer>) -> (r: DayReport)
    requires
        forall|i: int| 0 <= i < timers@.len() ==> (#[trigger] timers@[i]).times_valid(),
    ensures
        timers@.len() == 0 ==> {
            &&& r.lines@.len() == 1
            &&& r.lines@[0]@ == "⏱  No timers found for today."@
            &&& r.failure is None
        },
        timers@.len() > 0 && !totals_fit(ended_entries(timers@)) ==> {
            &&& r.lines@.len() == 0
            &&& r.failure == Some(DayFailure::SumOverflow)
        },
        timers@.len() > 0 && totals_fit(ended_entries(timers@)) ==> shows_totals(
            r,
            category_totals_of(ended_entries(timers@)),
        ),
{
    let mut lines: Vec<String> = Vec::new();
    if timers.len() == 0 {
        lines.push(text_of("⏱  No timers found for today."));
        return DayReport { lines, failure: None };
    }
    let tot = match category_totals(timers) {
        Some(t) => t,
        None => {
            return DayReport { lines, failure: Some(DayFailure::SumOverflow) };
        },
    };
    let ghost view = totals_view(tot@);
    lines.push(text_of("\n🧱 Time Spent Today by Category:\n"));
    let top = largest(&tot);
    let mut j: usize = 0;
    while j < tot.len()
        invariant
            j <= tot@.len(),
            timers@.len() > 0,
            totals_fit(ended_entries(timers@)),
            view == category_totals_of(ended_entries(timers@)),
            view == totals_view(tot@),
            top == peak(view),
            lines@.len() == j + 1,
            lines@[0]@ == day_heading(),
            forall|k: int| 0 <= k < j ==> render_failure(#[trigger] view[k].1, top as int) is None,
            forall|k: int| 0 <= k < j ==> (#[trigger] lines@[k + 1])@ == day_line(view[k].0, view[k].1, top as int),
        decreases tot.len() - j,
    {
        match render_category(&tot[j], top) {
            Ok(line) => {
                lines.push(line);
            },
            Err(f) => {
                return DayReport { lines, failure: Some(f) };
            },
        }
        j = j + 1;
    }
    DayReport { lines, failure: None }
}

/// The timers that have been ended.
pub open spec fn ended_timers(timers: Seq<Timer>) -> Seq<Timer> {
    timers.filter(|t: Timer| t.end_time is Some)
}

/// Running timers add nothing to the summary: the day's entries are those of
/// its ended timers alone, so two days with the same ended timers have the
/// same entries.
pub proof fn lemma_running_timers_add_nothing(a: Seq<Timer>, b: Seq<Timer>)
    requires
        ended_timers(a) == ended_timers(b),
    ensures
        ended_entries(a) == ended_entries(b),
{
    lemma_entries_of_ended(a);
    lemma_entries_of_ended(b);
}

proof fn lemma_entries_of_ended(timers: Seq<Timer>)
    ensures
        ended_entries(timers) == ended_entries(ended_timers(timers)),
    decreases timers.len(),
{
    if timers.len() > 0 {
        let rest = timers.drop_last();
        let last = timers.last();
        lemma_entries_of_ended(rest);
        assert(rest.push(last) == timers);
        rest.lemma_filter_push(last, |t: Timer| t.end_time is Some);
        let fr = ended_timers(rest);
        if last.end_time is Some {
            assert(ended_timers(timers) == fr.push(last));
            assert(fr.push(last).drop_last() == fr);
        } else {
            assert(ended_timers(timers) == fr);
        }
    } else {
        reveal(Seq::filter);
        assert(ended_timers(timers) == timers);
    }
}

/// The summary of a list of totals is one and the same whatever produced it:
/// two reports that both show `tot` hold the same lines and the same failure.
pub proof fn lemma_day_report_unique(r1: DayReport, r2: DayReport, tot: Seq<(Seq<char>, int)>)
    requires
        shows_totals(r1, tot),
        shows_totals(r2, tot),
    ensures
        r1.failure == r2.failure,
        r1.lines@.len() == r2.lines@.len(),
        forall|j: int| 0 <= j < r1.lines@.len() ==> (#[trigger] r1.lines@[j])@ == r2.lines@[j]@,
{
    let top = peak(tot);
    let k1 = r1.lines@.len() - 1;
    let k2 = r2.lines@.len() - 1;
    if k1 < k2 {
        assert(render_failure(tot[k1].1, top) is None);
    }
    if k2 < k1 {
        assert(render_failure(tot[k2].1, top) is None);
    }
    assert forall|j: int| 0 <= j < r1.lines@.len() implies (#[trigger] r1.lines@[j])@ == r2.lines@[j]@ by {
        if j > 0 {
            assert(r1.lines@[(j - 1) + 1]@ == day_line(tot[j - 1].0, tot[j - 1].1, top));
            assert(r2.lines@[(j - 1) + 1]@ == day_line(tot[j - 1].0, tot[j - 1].1, top));
        }
    }
}

/// The entries under the category `c`, in order.
pub open spec fn entries_under(entries: Seq<(Seq<char>, int)>, c: Seq<char>) -> Seq<(Seq<char>, int)>
    decreases entries.len(),
{
    if entries.len() == 0 {
        Seq::empty()
    } else {
        let before = entries_under(entries.drop_last(), c);
        if entries.last().0 == c {
            before.push(entries.last())
        } else {
            before
        }
    }
}

proof fn lemma_entries_under_push(s: Seq<(Seq<char>, int)>, e: (Seq<char>, int), c: Seq<char>)
    ensures
        minutes_sum(entries_under(s.push(e), c)) == minutes_sum(entries_under(s, c)) + (if e.0 == c {
            e.1
        } else {
            0
        }),
{
    assert(s.push(e).drop_last() == s);
    assert(entries_under(s.push(e), c) == if e.0 == c {
        entries_under(s, c).push(e)
    } else {
        entries_under(s, c)
    });
    if e.0 == c {
        assert(entries_under(s, c).push(e).drop_last() == entries_under(s, c));
    }
}

proof fn lemma_nothing_under(s: Seq<(Seq<char>, int)>, c: Seq<char>)
    requires
        !has_category(s, c),
    ensures
        minutes_sum(entries_under(s, c)) == 0,
    decreases s.len(),
{
    if s.len() == 0 {
    } else {
        let rest = s.drop_last();
        assert(rest.push(s.last()) == s);
        assert(!has_category(rest, c)) by {
            if has_category(rest, c) {
                let i = choose|i: int| 0 <= i < rest.len() && rest[i].0 == c;
                assert(s[i].0 == c);
            }
        }
        assert(s.last().0 != c) by {
            if s.last().0 == c {
                assert(s[s.len() - 1].0 == c);
            }
        }
        lemma_nothing_under(rest, c);
        lemma_entries_under_push(rest, s.last(), c);
    }
}

/// Each category's total is the sum of the minutes of the entries under that
/// category, and only of those.
pub proof fn lemma_total_is_sum_under_category(entries: Seq<(Seq<char>, int)>)
    ensures
        forall|k: int|
            0 <= k < category_totals_of(entries).len() ==> (#[trigger] category_totals_of(entries)[k]).1
                == minutes_sum(entries_under(entries, category_totals_of(entries)[k].0)),
    decreases entries.len(),
{
    if entries.len() > 0 {
        let rest = entries.drop_last();
        let x = entries.last();
        let tr = category_totals_of(rest);
        let t = category_totals_of(entries);
        assert(rest.push(x) == entries);
        lemma_total_is_sum_under_category(rest);
        lemma_category_totals(rest);
        if exists|p: int| first_place(tr, x.0, p) {
            let p = choose|p: int| first_place(tr, x.0, p);
            assert forall|k: int| 0 <= k < t.len() implies (#[trigger] t[k]).1 == minutes_sum(
                entries_under(entries, t[k].0),
            ) by {
                lemma_entries_under_push(rest, x, t[k].0);
                if k != p {
                    assert(t[k] == tr[k]);
                    assert(tr[k].0 != x.0);
                }
            }
        } else {
            assert(!has_category(tr, x.0)) by {
                if has_category(tr, x.0) {
                    let i = choose|i: int| 0 <= i < tr.len() && tr[i].0 == x.0;
                    lemma_first_place_exists(tr, x.0, i);
                }
            }
            assert forall|k: int| 0 <= k < t.len() implies (#[trigger] t[k]).1 == minutes_sum(
                entries_under(entries, t[k].0),
            ) by {
                lemma_entries_under_push(rest, x, t[k].0);
                if k < tr.len() {
                    assert(t[k] == tr[k]);
                    assert(tr[k].0 != x.0) by {
                        if tr[k].0 == x.0 {
                            assert(has_category(tr, x.0));
                        }
                    }
                } else {
                    assert(t[k] == x);
                    lemma_nothing_under(rest, x.0);
                }
            }
        }
    }
}

/// The bars are scaled to the largest total: every total is at most `peak`,
/// some total is `peak`, and a nonzero largest total draws a bar of exactly
/// twenty characters.
pub proof fn lemma_peak_is_largest(tot: Seq<(Seq<char>, int)>)
    requires
        tot.len() > 0,
    ensures
        forall|k: int| 0 <= k < tot.len() ==> (#[trigger] tot[k]).1 <= peak(tot),
        exists|k: int| 0 <= k < tot.len() && (#[trigger] tot[k]).1 == peak(tot),
        peak(tot) != 0 ==> bar_len(peak(tot), peak(tot)) == 20,
    decreases tot.len(),
{
    if tot.len() > 1 {
        let rest = tot.drop_last();
        lemma_peak_is_largest(rest);
        assert forall|k: int| 0 <= k < tot.len() implies (#[trigger] tot[k]).1 <= peak(tot) by {
            if k < rest.len() {
                assert(tot[k] == rest[k]);
            }
        }
        if tot.last().1 > peak(rest) {
            assert(tot[tot.len() - 1].1 == peak(tot));
        } else {
            let k = choose|k: int| 0 <= k < rest.len() && (#[trigger] rest[k]).1 == peak(rest);
            assert(tot[k] == rest[k]);
        }
    } else {
        assert(tot[0].1 == peak(tot));
    }
    let p = peak(tot);
    if p != 0 {
        let a = if p * 20 < 0 { -(p * 20) } else { p * 20 };
        let b = if p < 0 { -p } else { p };
        assert(a == 20 * b);
        assert(a / b == 20) by (nonlinear_arith)
            requires
                a == 20 * b,
                b > 0,
        ;
    }
}

/// A listed timer line starts with the whole note, the category in round
/// brackets and the shown start and end (or `Not ended`) in square brackets,
/// ends with `id: ` and its id, and has only spaces between.
pub proof fn lemma_timer_line_shape(t: Timer, shown: TimesShown, width: nat)
    ensures
        ({
            let line = timer_line(t, shown, width);
            let end = match shown.end {
                Some(e) => e@,
                None => "Not ended"@,
            };
            let left = t.note@ + " ("@ + t.category@ + ") ["@ + shown.start@ + " - "@ + end + "]"@;
            let right = "id: "@ + int_text(t.id as int);
            &&& line.take(left.len() as int) == left
            &&& line.take((t.note@.len() + 2) as int) == t.note@ + " ("@
            &&& line.skip(line.len() - right.len()) == right
            &&& forall|i: int| left.len() <= i < line.len() - right.len() ==> #[trigger] line[i] == ' '
            &&& line.len() == (if left.len() + right.len() < width {
                width as int
            } else {
                left.len() + right.len() as int
            })
        }),
{
    reveal_strlit(" (");
    let end = match shown.end {
        Some(e) => e@,
        None => "Not ended"@,
    };
    let left = t.note@ + " ("@ + t.category@ + ") ["@ + shown.start@ + " - "@ + end + "]"@;
    let right = "id: "@ + int_text(t.id as int);
    lemma_spread_shape(width, left, right);
    let line = timer_line(t, shown, width);
    assert(line.take((t.note@.len() + 2) as int) =~= line.take(left.len() as int).take((t.note@.len() + 2) as int));
    assert(left.take((t.note@.len() + 2) as int) =~= t.note@ + " ("@);
}

} // verus!
