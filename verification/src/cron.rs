//! Cron expressions: six fields, separated by single spaces, for second,
//! minute, hour, day of the month, month and day of the week (0 is
//! Sunday). A field is a list of items separated by commas; an item is a
//! star, a number or a range `a-b`, each optionally followed by `/` and a
//! step. A number with a step runs on to the end of the field's range.

use vstd::prelude::*;
use vstd::string::StringSliceAdditionalSpecFns;

verus! {

/// The values that one item admits: from `first` to `last`, every
/// `step`-th.
pub struct ItemRange {
    pub first: int,
    pub last: int,
    pub step: int,
}

/// The calendar fields of a moment, as a cron expression reads them.
#[derive(Clone, Copy, Debug, PartialEq, Eq, Structural)]
pub struct Calendar {
    /// 0 to 59.
    pub second: u8,
    /// 0 to 59.
    pub minute: u8,
    /// 0 to 23.
    pub hour: u8,
    /// Day of the month, 1 to 31.
    pub day: u8,
    /// 1 to 12.
    pub month: u8,
    /// 0 for Sunday to 6 for Saturday.
    pub weekday: u8,
}

/// A cron expression that was read: the values that each of its fields
/// admits.
#[derive(Clone, Debug)]
pub struct CronExpr {
    pub seconds: Vec<u8>,
    pub minutes: Vec<u8>,
    pub hours: Vec<u8>,
    pub days: Vec<u8>,
    pub months: Vec<u8>,
    pub weekdays: Vec<u8>,
}

/// The values that each field of an expression admits, ascending.
pub struct CronFields {
    pub seconds: Seq<u8>,
    pub minutes: Seq<u8>,
    pub hours: Seq<u8>,
    pub days: Seq<u8>,
    pub months: Seq<u8>,
    pub weekdays: Seq<u8>,
}

impl View for CronExpr {
    type V = CronFields;

    open spec fn view(&self) -> CronFields {
        CronFields {
            seconds: self.seconds@,
            minutes: self.minutes@,
            hours: self.hours@,
            days: self.days@,
            months: self.months@,
            weekdays: self.weekdays@,
        }
    }
}

impl CronFields {
    /// The expression fires at a moment with these calendar fields: it
    /// admits each field of the moment.
    pub open spec fn fires(self, c: Calendar) -> bool {
        &&& self.seconds.contains(c.second)
        &&& self.minutes.contains(c.minute)
        &&& self.hours.contains(c.hour)
        &&& self.days.contains(c.day)
        &&& self.months.contains(c.month)
        &&& self.weekdays.contains(c.weekday)
    }
}

pub open spec fn is_digit(b: u8) -> bool {
    48 <= b <= 57
}

/// The number that a row of digits writes.
pub open spec fn digits_value(s: Seq<u8>) -> int
    decreases s.len(),
{
    if s.len() == 0 {
        0
    } else {
        digits_value(s.drop_last()) * 10 + (s.last() - 48)
    }
}

/// The number that `s` writes, if `s` is one to three digits.
pub open spec fn number_of(s: Seq<u8>) -> Option<int> {
    if 1 <= s.len() <= 3 && forall|i: int| 0 <= i < s.len() ==> is_digit(#[trigger] s[i]) {
        Some(digits_value(s))
    } else {
        None
    }
}

/// `p` is where the byte `c` first occurs in `s`.
pub open spec fn is_first(s: Seq<u8>, c: u8, p: int) -> bool {
    &&& 0 <= p < s.len()
    &&& s[p] == c
    &&& forall|j: int| 0 <= j < p ==> s[j] != c
}

/// Where the byte `c` first occurs in `s`, if it occurs.
pub open spec fn first_of(s: Seq<u8>, c: u8) -> int {
    choose|p: int| is_first(s, c, p)
}

/// What one item admits within the bounds `lo` to `hi` of its field, if
/// it is well formed: a star stands for the whole range, `a-b` for the
/// values from `a` to `b`, a single number for itself, or, where a step
/// follows, for the values from it to `hi`. The step must be at least 1,
/// and `lo <= a <= b <= hi`.
pub open spec fn parse_item(s: Seq<u8>, lo: int, hi: int) -> Option<ItemRange> {
    let stepped = s.contains(47u8);
    let body = if stepped {
        s.subrange(0, first_of(s, 47u8))
    } else {
        s
    };
    let step = if stepped {
        number_of(s.subrange(first_of(s, 47u8) + 1, s.len() as int))
    } else {
        Some(1int)
    };
    let star = body =~= seq![42u8];
    let ranged = body.contains(45u8);
    let first = if star {
        Some(lo)
    } else if ranged {
        number_of(body.subrange(0, first_of(body, 45u8)))
    } else {
        number_of(body)
    };
    let last = if star {
        Some(hi)
    } else if ranged {
        number_of(body.subrange(first_of(body, 45u8) + 1, body.len() as int))
    } else if stepped {
        Some(hi)
    } else {
        first
    };
    if step is Some && first is Some && last is Some && step.unwrap() >= 1 && lo <= first.unwrap()
        <= last.unwrap() <= hi {
        Some(ItemRange { first: first.unwrap(), last: last.unwrap(), step: step.unwrap() })
    } else {
        None
    }
}

/// The items of a field, if each of them is well formed.
pub open spec fn parse_items(s: Seq<u8>, lo: int, hi: int) -> Option<Seq<ItemRange>>
    decreases s.len(),
{
    if s.contains(44u8) {
        let p = first_of(s, 44u8);
        if 0 <= p < s.len() {
            match (
                parse_item(s.subrange(0, p), lo, hi),
                parse_items(s.subrange(p + 1, s.len() as int), lo, hi),
            ) {
                (Some(r), Some(rest)) => Some(seq![r] + rest),
                _ => None,
            }
        } else {
            None
        }
    } else {
        match parse_item(s, lo, hi) {
            Some(r) => Some(seq![r]),
            None => None,
        }
    }
}

/// The item admits the value.
pub open spec fn in_range(r: ItemRange, v: int) -> bool {
    r.first <= v <= r.last && (v - r.first) % r.step == 0
}

/// Some item admits the value.
pub open spec fn admitted(items: Seq<ItemRange>, v: int) -> bool {
    exists|k: int| 0 <= k < items.len() && in_range(#[trigger] items[k], v)
}

/// The values from `lo` up to but not including `n` that some item
/// admits, ascending.
pub open spec fn values_of(items: Seq<ItemRange>, lo: int, n: int) -> Seq<u8>
    decreases n - lo,
{
    if n <= lo {
        Seq::empty()
    } else {
        let rest = values_of(items, lo, n - 1);
        if admitted(items, n - 1) {
            rest.push((n - 1) as u8)
        } else {
            rest
        }
    }
}

/// The values that a field admits within its bounds, if it is well
/// formed.
pub open spec fn parse_field(s: Seq<u8>, lo: int, hi: int) -> Option<Seq<u8>> {
    match parse_items(s, lo, hi) {
        Some(items) => Some(values_of(items, lo, hi + 1)),
        None => None,
    }
}

/// The text cut at every space.
pub open spec fn split_fields(s: Seq<u8>) -> Seq<Seq<u8>>
    decreases s.len(),
{
    if s.contains(32u8) {
        let p = first_of(s, 32u8);
        if 0 <= p < s.len() {
            seq![s.subrange(0, p)] + split_fields(s.subrange(p + 1, s.len() as int))
        } else {
            seq![s]
        }
    } else {
        seq![s]
    }
}

/// What a cron expression admits, if it is well formed: it has exactly
/// six fields, each well formed within its bounds.
pub open spec fn parse_cron(s: Seq<u8>) -> Option<CronFields> {
    let f = split_fields(s);
    if f.len() == 6 && parse_field(f[0], 0, 59) is Some && parse_field(f[1], 0, 59) is Some
        && parse_field(f[2], 0, 23) is Some && parse_field(f[3], 1, 31) is Some && parse_field(
        f[4],
        1,
        12,
    ) is Some && parse_field(f[5], 0, 6) is Some {
        Some(
            CronFields {
                seconds: parse_field(f[0], 0, 59).unwrap(),
                minutes: parse_field(f[1], 0, 59).unwrap(),
                hours: parse_field(f[2], 0, 23).unwrap(),
                days: parse_field(f[3], 1, 31).unwrap(),
                months: parse_field(f[4], 1, 12).unwrap(),
                weekdays: parse_field(f[5], 0, 6).unwrap(),
            },
        )
    } else {
        None
    }
}

/// One parsed item.
struct Span {
    first: u8,
    last: u8,
    step: u16,
}

impl View for Span {
    type V = ItemRange;

    closed spec fn view(&self) -> ItemRange {
        ItemRange { first: self.first as int, last: self.last as int, step: self.step as int }
    }
}

proof fn lemma_first(s: Seq<u8>, c: u8, p: int)
    requires
        is_first(s, c, p),
    ensures
        s.contains(c),
        first_of(s, c) == p,
{
    let q = first_of(s, c);
    assert(is_first(s, c, q));
    if q < p {
        assert(s[q] != c);
    }
    if p < q {
        assert(s[p] != c);
    }
}

/// Where `c` first occurs in `b[from..to]`.
fn find(b: &[u8], from: usize, to: usize, c: u8) -> (r: Option<usize>)
    requires
        from <= to <= b.len(),
    ensures
        r matches Some(p) ==> from <= p < to && is_first(b@.subrange(from as int, to as int), c, p - from)
            && b@.subrange(from as int, to as int).contains(c) && first_of(
            b@.subrange(from as int, to as int),
            c,
        ) == p - from,
        r is None ==> !b@.subrange(from as int, to as int).contains(c),
{
    let ghost s = b@.subrange(from as int, to as int);
    let mut p: usize = from;
    while p < to
        invariant
            from <= p <= to <= b.len(),
            s == b@.subrange(from as int, to as int),
            forall|j: int| 0 <= j < p - from ==> s[j] != c,
        decreases to - p,
    {
        if b[p] == c {
            proof {
                assert(s[p - from] == b@[p as int]);
                lemma_first(s, c, p - from);
            }
            return Some(p);
        }
        assert(s[p - from] == b@[p as int]);
        p += 1;
    }
    proof {
        if s.contains(c) {
            let j = choose|j: int| 0 <= j < s.len() && s[j] == c;
            assert(s[j] != c);
        }
    }
    None
}

/// The number that `b[from..to]` writes.
fn number(b: &[u8], from: usize, to: usize) -> (r: Option<u16>)
    requires
        from <= to <= b.len(),
    ensures
        match r {
            Some(n) => number_of(b@.subrange(from as int, to as int)) == Some(n as int) && n <= 999,
            None => number_of(b@.subrange(from as int, to as int)) is None,
        },
{
    let ghost s = b@.subrange(from as int, to as int);
    if to - from < 1 || to - from > 3 {
        return None;
    }
    let mut value: u16 = 0;
    let mut i: usize = from;
    while i < to
        invariant
            from <= i <= to <= b.len(),
            to - from <= 3,
            s == b@.subrange(from as int, to as int),
            forall|j: int| 0 <= j < i - from ==> is_digit(#[trigger] s[j]),
            value == digits_value(s.subrange(0, i - from)),
            i - from == 0 ==> value == 0,
            i - from == 1 ==> value <= 9,
            i - from == 2 ==> value <= 99,
            i - from == 3 ==> value <= 999,
        decreases to - i,
    {
        let d = b[i];
        assert(s[i - from] == d);
        if d < 48 || d > 57 {
            return None;
        }
        proof {
            let next = s.subrange(0, i - from + 1);
            assert(next.drop_last() =~= s.subrange(0, i - from));
            assert(next.last() == d);
        }
        value = value * 10 + (d - 48) as u16;
        i += 1;
    }
    assert(s.subrange(0, s.len() as int) =~= s);
    Some(value)
}

/// The item that `b[from..to]` writes, within the bounds of its field.
fn item(b: &[u8], from: usize, to: usize, lo: u8, hi: u8) -> (r: Option<Span>)
    requires
        from <= to <= b.len(),
        lo <= hi,
    ensures
        match r {
            Some(span) => parse_item(b@.subrange(from as int, to as int), lo as int, hi as int)
                == Some(span@),
            None => parse_item(b@.subrange(from as int, to as int), lo as int, hi as int) is None,
        },
{
    let ghost s = b@.subrange(from as int, to as int);
    let slash = find(b, from, to, 47);
    let (end, step, stepped) = match slash {
        Some(p) => {
            assert(b@.subrange(p + 1, to as int) =~= s.subrange(p - from + 1, s.len() as int));
            assert(b@.subrange(from as int, p as int) =~= s.subrange(0, p - from));
            match number(b, p + 1, to) {
                Some(n) => (p, n, true),
                None => {
                    return None;
                },
            }
        },
        None => {
            (to, 1u16, false)
        },
    };
    let ghost body = b@.subrange(from as int, end as int);
    assert(body == if s.contains(47u8) {
        s.subrange(0, first_of(s, 47u8))
    } else {
        s
    });
    let star = end - from == 1 && b[from] == 42;
    proof {
        if star {
            assert(body =~= seq![42u8]);
        } else if body =~= seq![42u8] {
            assert(body.len() == 1);
            assert(body[0] == b@[from as int]);
        }
    }
    let (first, last): (u16, u16) = if star {
        (lo as u16, hi as u16)
    } else {
        match find(b, from, end, 45) {
            Some(q) => {
                assert(b@.subrange(from as int, q as int) =~= body.subrange(0, q - from));
                assert(b@.subrange(q + 1, end as int) =~= body.subrange(
                    q - from + 1,
                    body.len() as int,
                ));
                match (number(b, from, q), number(b, q + 1, end)) {
                    (Some(a), Some(z)) => (a, z),
                    _ => {
                        return None;
                    },
                }
            },
            None => {
                match number(b, from, end) {
                    Some(a) => if stepped {
                        (a, hi as u16)
                    } else {
                        (a, a)
                    },
                    None => {
                        return None;
                    },
                }
            },
        }
    };
    if step >= 1 && lo as u16 <= first && first <= last && last <= hi as u16 {
        Some(Span { first: first as u8, last: last as u8, step })
    } else {
        None
    }
}

/// The items that `b[from..to]` lists, within the bounds of their field.
fn items(b: &[u8], from: usize, to: usize, lo: u8, hi: u8) -> (r: Option<Vec<Span>>)
    requires
        from <= to <= b.len(),
        lo <= hi,
    ensures
        match r {
            Some(spans) => parse_items(b@.subrange(from as int, to as int), lo as int, hi as int)
                == Some(spans@.map_values(|s: Span| s@)) && forall|k: int|
                0 <= k < spans@.len() ==> (#[trigger] spans@[k])@.step >= 1,
            None => parse_items(b@.subrange(from as int, to as int), lo as int, hi as int) is None,
        },
{
    let ghost whole = b@.subrange(from as int, to as int);
    let mut spans: Vec<Span> = Vec::new();
    let mut cur: usize = from;
    loop
        invariant
            from <= cur <= to <= b.len(),
            lo <= hi,
            whole == b@.subrange(from as int, to as int),
            forall|k: int| 0 <= k < spans@.len() ==> (#[trigger] spans@[k])@.step >= 1,
            parse_items(whole, lo as int, hi as int) == match parse_items(
                b@.subrange(cur as int, to as int),
                lo as int,
                hi as int,
            ) {
                Some(rest) => Some(spans@.map_values(|s: Span| s@) + rest),
                None => None,
            },
        decreases to - cur,
    {
        let ghost rest = b@.subrange(cur as int, to as int);
        let ghost done = spans@.map_values(|s: Span| s@);
        match find(b, cur, to, 44) {
            Some(p) => {
                assert(b@.subrange(cur as int, p as int) =~= rest.subrange(0, p - cur));
                assert(b@.subrange(p + 1, to as int) =~= rest.subrange(p - cur + 1, rest.len() as int));
                match item(b, cur, p, lo, hi) {
                    Some(span) => {
                        proof {
                            let tail = parse_items(b@.subrange(p + 1, to as int), lo as int, hi as int);
                            if tail is Some {
                                assert(done + (seq![span@] + tail.unwrap()) =~= done.push(span@)
                                    + tail.unwrap());
                            }
                        }
                        spans.push(span);
                        assert(spans@.map_values(|s: Span| s@) =~= done.push(span@));
                        cur = p + 1;
                    },
                    None => {
                        return None;
                    },
                }
            },
            None => {
                match item(b, cur, to, lo, hi) {
                    Some(span) => {
                        spans.push(span);
                        assert(spans@.map_values(|s: Span| s@) =~= done + seq![span@]);
                        return Some(spans);
                    },
                    None => {
                        return None;
                    },
                }
            },
        }
    }
}

/// Whether some item admits `v`.
fn admits(spans: &Vec<Span>, v: u8) -> (r: bool)
    requires
        forall|k: int| 0 <= k < spans@.len() ==> (#[trigger] spans@[k])@.step >= 1,
    ensures
        r == admitted(spans@.map_values(|s: Span| s@), v as int),
{
    let ghost items = spans@.map_values(|s: Span| s@);
    let mut k: usize = 0;
    while k < spans.len()
        invariant
            k <= spans.len(),
            items == spans@.map_values(|s: Span| s@),
            forall|k: int| 0 <= k < spans@.len() ==> (#[trigger] spans@[k])@.step >= 1,
            forall|j: int| 0 <= j < k ==> !in_range(#[trigger] items[j], v as int),
        decreases spans.len() - k,
    {
        let s = &spans[k];
        assert(items[k as int] == s@);
        if s.step >= 1 && s.first <= v && v <= s.last && ((v - s.first) as u16) % s.step == 0 {
            return true;
        }
        k += 1;
    }
    false
}

/// The values that the field `b[from..to]` admits within its bounds.
fn field(b: &[u8], from: usize, to: usize, lo: u8, hi: u8) -> (r: Option<Vec<u8>>)
    requires
        from <= to <= b.len(),
        lo <= hi < 255,
    ensures
        match r {
            Some(values) => parse_field(b@.subrange(from as int, to as int), lo as int, hi as int)
                == Some(values@),
            None => parse_field(b@.subrange(from as int, to as int), lo as int, hi as int) is None,
        },
{
    let spans = match items(b, from, to, lo, hi) {
        Some(spans) => spans,
        None => {
            return None;
        },
    };
    let ghost ranges = spans@.map_values(|s: Span| s@);
    let mut values: Vec<u8> = Vec::new();
    let mut v: u8 = lo;
    while v <= hi
        invariant
            lo <= v <= hi + 1,
            hi < 255,
            ranges == spans@.map_values(|s: Span| s@),
            forall|k: int| 0 <= k < spans@.len() ==> (#[trigger] spans@[k])@.step >= 1,
            values@ == values_of(ranges, lo as int, v as int),
        decreases hi + 1 - v,
    {
        if admits(&spans, v) {
            values.push(v);
        }
        v += 1;
    }
    Some(values)
}

/// The bounds of the fields of `b`, cut at every space.
fn fields(b: &[u8]) -> (r: Vec<(usize, usize)>)
    ensures
        r@.len() == split_fields(b@).len(),
        forall|k: int|
            0 <= k < r@.len() ==> (#[trigger] r@[k]).0 <= r@[k].1 <= b@.len() && split_fields(b@)[k]
                == b@.subrange(r@[k].0 as int, r@[k].1 as int),
{
    let mut bounds: Vec<(usize, usize)> = Vec::new();
    let mut cur: usize = 0;
    let ghost mut done: Seq<Seq<u8>> = Seq::empty();
    proof {
        assert(b@.subrange(0, b@.len() as int) =~= b@);
        assert(done + split_fields(b@) =~= split_fields(b@));
    }
    loop
        invariant
            cur <= b.len(),
            split_fields(b@) == done + split_fields(b@.subrange(cur as int, b@.len() as int)),
            bounds@.len() == done.len(),
            forall|k: int|
                0 <= k < bounds@.len() ==> (#[trigger] bounds@[k]).0 <= bounds@[k].1 <= b@.len()
                    && done[k] == b@.subrange(bounds@[k].0 as int, bounds@[k].1 as int),
        decreases b.len() - cur,
    {
        let ghost rest = b@.subrange(cur as int, b@.len() as int);
        match find(b, cur, b.len(), 32) {
            Some(p) => {
                assert(b@.subrange(cur as int, p as int) =~= rest.subrange(0, p - cur));
                assert(b@.subrange(p + 1, b@.len() as int) =~= rest.subrange(
                    p - cur + 1,
                    rest.len() as int,
                ));
                proof {
                    let head = b@.subrange(cur as int, p as int);
                    let tail = split_fields(b@.subrange(p + 1, b@.len() as int));
                    assert(done + (seq![head] + tail) =~= done.push(head) + tail);
                    done = done.push(head);
                }
                bounds.push((cur, p));
                cur = p + 1;
            },
            None => {
                proof {
                    assert(done + seq![rest] =~= done.push(rest));
                    done = done.push(rest);
                }
                bounds.push((cur, b.len()));
                return bounds;
            },
        }
    }
}

/// Whether `v` is listed in `field`.
fn listed(field: &Vec<u8>, v: u8) -> (r: bool)
    ensures
        r == field@.contains(v),
{
    let mut k: usize = 0;
    while k < field.len()
        invariant
            k <= field.len(),
            forall|j: int| 0 <= j < k ==> field[j] != v,
        decreases field.len() - k,
    {
        if field[k] == v {
            return true;
        }
        k += 1;
    }
    false
}

impl CronExpr {
    /// Whether the expression fires at a moment with these calendar
    /// fields.
    pub fn matches(&self, c: &Calendar) -> (r: bool)
        ensures
            r == self@.fires(*c),
    {
        listed(&self.seconds, c.second) && listed(&self.minutes, c.minute) && listed(
            &self.hours,
            c.hour,
        ) && listed(&self.days, c.day) && listed(&self.months, c.month) && listed(
            &self.weekdays,
            c.weekday,
        )
    }

    /// Reads a cron expression. Returns what its six fields admit, or
    /// `None` if the text is not a well-formed expression.
    pub fn parse(text: &str) -> (r: Option<CronExpr>)
        ensures
            match r {
                Some(e) => parse_cron(text.spec_bytes()) == Some(e@),
                None => parse_cron(text.spec_bytes()) is None,
            },
    {
        let b = text.as_bytes();
        let f = fields(b);
        if f.len() != 6 {
            return None;
        }
        let seconds = match field(b, f[0].0, f[0].1, 0, 59) {
            Some(v) => v,
            None => {
                return None;
            },
        };
        let minutes = match field(b, f[1].0, f[1].1, 0, 59) {
            Some(v) => v,
            None => {
                return None;
            },
        };
        let hours = match field(b, f[2].0, f[2].1, 0, 23) {
            Some(v) => v,
            None => {
                return None;
            },
        };
        let days = match field(b, f[3].0, f[3].1, 1, 31) {
            Some(v) => v,
            None => {
                return None;
            },
        };
        let months = match field(b, f[4].0, f[4].1, 1, 12) {
            Some(v) => v,
            None => {
                return None;
            },
        };
        let weekdays = match field(b, f[5].0, f[5].1, 0, 6) {
            Some(v) => v,
            None => {
                return None;
            },
        };
        Some(CronExpr { seconds, minutes, hours, days, months, weekdays })
    }
}

} // verus!
