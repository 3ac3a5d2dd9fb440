//! Calendar dates in the one written form the site uses, such as
//! `Jan 03, 2120`.
//!
//! A date is a year, a month and a day of the month. Nothing checks that the
//! day exists in the month: `Feb 30, 2020` is a date like any other.

use vstd::prelude::*;
use std::cmp::Ordering;
use std::str::FromStr;
use crate::number::{
    decimal_digits, lemma_decimal_digits_value, lemma_two_digits_value, parse_decimal,
    parse_number, push_decimal, two_digits, NumberErr,
};
use crate::text::{
    append_chars, ascii_lower, char_ascii_lower, char_is_ascii_digit, char_is_ascii_letter,
    char_is_ascii_whitespace, chars_of, is_ascii_digit, is_ascii_letter, is_ascii_whitespace,
    is_word, lemma_words_leading_word, lemma_words_skip_space, split_ascii_whitespace, string_of,
    words,
};

verus! {

/// The twelve months, in calendar order.
#[derive(Debug, Clone, Copy, PartialEq, Eq, PartialOrd, Ord, Structural)]
pub enum Month {
    January,
    February,
    March,
    April,
    May,
    June,
    July,
    August,
    September,
    October,
    November,
    December,
}

/// Why a piece of text names no month.
#[derive(Debug)]
pub enum MonthErr {
    /// The lower-cased first three characters of the text, which are no
    /// month's abbreviation.
    NotMonth(String),
}

/// What a `MonthErr` says, as a value.
pub enum MonthErrView {
    NotMonth(Seq<char>),
}

impl View for MonthErr {
    type V = MonthErrView;

    open spec fn view(&self) -> MonthErrView {
        match self {
            MonthErr::NotMonth(s) => MonthErrView::NotMonth(s@),
        }
    }
}

/// A day of a month of a year. Dates are ordered by year, then month, then
/// day.
#[derive(Debug, Clone, Copy, PartialEq, Eq, Ord, Structural)]
pub struct Date {
    pub year: u16,
    pub month: Month,
    pub day: u8,
}

/// Why a piece of text is no date.
#[derive(Debug)]
pub enum DateErr {
    /// The first word names no month.
    Month(MonthErr),
    /// The text does not hold exactly three words.
    Not3Parts,
    /// The second word is no number up to 255.
    DayParse(NumberErr),
    /// The third word is no number up to 65535.
    YearParse(NumberErr),
}

/// What a `DateErr` says, as a value.
pub enum DateErrView {
    Month(MonthErrView),
    Not3Parts,
    DayParse(NumberErr),
    YearParse(NumberErr),
}

impl View for DateErr {
    type V = DateErrView;

    open spec fn view(&self) -> DateErrView {
        match self {
            DateErr::Month(e) => DateErrView::Month(e@),
            DateErr::Not3Parts => DateErrView::Not3Parts,
            DateErr::DayParse(e) => DateErrView::DayParse(*e),
            DateErr::YearParse(e) => DateErrView::YearParse(*e),
        }
    }
}

/// The first three characters of `s`, or all of them where it has fewer, in
/// lower case: what a month is recognised by.
pub open spec fn month_key(s: Seq<char>) -> Seq<char> {
    Seq::new(
        if s.len() < 3 {
            s.len()
        } else {
            3
        },
        |i: int| ascii_lower(s[i]),
    )
}

/// Whether `k` is the three characters `a`, `b`, `c`.
pub open spec fn is_key(k: Seq<char>, a: char, b: char, c: char) -> bool {
    k.len() == 3 && k[0] == a && k[1] == b && k[2] == c
}

/// The month whose lower-case abbreviation `k` is.
pub open spec fn month_of_key(k: Seq<char>) -> Option<Month> {
    if is_key(k, 'j', 'a', 'n') {
        Some(Month::January)
    } else if is_key(k, 'f', 'e', 'b') {
        Some(Month::February)
    } else if is_key(k, 'm', 'a', 'r') {
        Some(Month::March)
    } else if is_key(k, 'a', 'p', 'r') {
        Some(Month::April)
    } else if is_key(k, 'm', 'a', 'y') {
        Some(Month::May)
    } else if is_key(k, 'j', 'u', 'n') {
        Some(Month::June)
    } else if is_key(k, 'j', 'u', 'l') {
        Some(Month::July)
    } else if is_key(k, 'a', 'u', 'g') {
        Some(Month::August)
    } else if is_key(k, 's', 'e', 'p') {
        Some(Month::September)
    } else if is_key(k, 'o', 'c', 't') {
        Some(Month::October)
    } else if is_key(k, 'n', 'o', 'v') {
        Some(Month::November)
    } else if is_key(k, 'd', 'e', 'c') {
        Some(Month::December)
    } else {
        None
    }
}

/// The month that `s` names: the one whose abbreviation the first three
/// characters of `s` are, whatever their case and whatever follows them.
pub open spec fn parse_month(s: Seq<char>) -> Result<Month, MonthErrView> {
    match month_of_key(month_key(s)) {
        Some(m) => Ok(m),
        None => Err(MonthErrView::NotMonth(month_key(s))),
    }
}

/// Whether a date's text keeps `c`: letters, digits and ASCII whitespace
/// stay, everything else is dropped before the text is read.
pub open spec fn is_date_char(c: char) -> bool {
    is_ascii_letter(c) || is_ascii_digit(c) || is_ascii_whitespace(c)
}

/// `s` without the characters that a date's text does not keep.
pub open spec fn clean(s: Seq<char>) -> Seq<char>
    decreases s.len(),
{
    if s.len() == 0 {
        s
    } else if is_date_char(s.last()) {
        clean(s.drop_last()).push(s.last())
    } else {
        clean(s.drop_last())
    }
}

/// The date that `s` stands for. What is left of `s` after `clean` must be
/// three words: a month, a day and a year. Of several faults the one
/// reported is the first of: a wrong number of words, the year, the month,
/// the day.
pub open spec fn parse_date(s: Seq<char>) -> Result<Date, DateErrView> {
    let w = words(clean(s));
    if w.len() != 3 {
        Err(DateErrView::Not3Parts)
    } else {
        match parse_number(w[2], 0xFFFF) {
            Err(e) => Err(DateErrView::YearParse(e)),
            Ok(year) => match parse_month(w[0]) {
                Err(e) => Err(DateErrView::Month(e)),
                Ok(month) => match parse_number(w[1], 0xFF) {
                    Err(e) => Err(DateErrView::DayParse(e)),
                    Ok(day) => Ok(Date { year: year as u16, month, day: day as u8 }),
                },
            },
        }
    }
}

impl Month {
    /// The month's place in the year, from 0 for January to 11 for December.
    pub open spec fn number(self) -> int {
        match self {
            Month::January => 0,
            Month::February => 1,
            Month::March => 2,
            Month::April => 3,
            Month::May => 4,
            Month::June => 5,
            Month::July => 6,
            Month::August => 7,
            Month::September => 8,
            Month::October => 9,
            Month::November => 10,
            Month::December => 11,
        }
    }

    /// The month's three-letter abbreviation.
    pub open spec fn abbrev(self) -> Seq<char> {
        match self {
            Month::January => seq!['J', 'a', 'n'],
            Month::February => seq!['F', 'e', 'b'],
            Month::March => seq!['M', 'a', 'r'],
            Month::April => seq!['A', 'p', 'r'],
            Month::May => seq!['M', 'a', 'y'],
            Month::June => seq!['J', 'u', 'n'],
            Month::July => seq!['J', 'u', 'l'],
            Month::August => seq!['A', 'u', 'g'],
            Month::September => seq!['S', 'e', 'p'],
            Month::October => seq!['O', 'c', 't'],
            Month::November => seq!['N', 'o', 'v'],
            Month::December => seq!['D', 'e', 'c'],
        }
    }

    /// The month's place in the year, from 0 for January to 11 for December.
    pub fn index(self) -> (n: u8)
        ensures
            n == self.number(),
    {
        match self {
            Month::January => 0,
            Month::February => 1,
            Month::March => 2,
            Month::April => 3,
            Month::May => 4,
            Month::June => 5,
            Month::July => 6,
            Month::August => 7,
            Month::September => 8,
            Month::October => 9,
            Month::November => 10,
            Month::December => 11,
        }
    }

    /// The month's three-letter abbreviation, as the site writes it.
    pub fn to_string(&self) -> (s: String)
        ensures
            s@ == self.abbrev(),
    {
        let (a, b, c): (char, char, char) = match self {
            Month::January => ('J', 'a', 'n'),
            Month::February => ('F', 'e', 'b'),
            Month::March => ('M', 'a', 'r'),
            Month::April => ('A', 'p', 'r'),
            Month::May => ('M', 'a', 'y'),
            Month::June => ('J', 'u', 'n'),
            Month::July => ('J', 'u', 'l'),
            Month::August => ('A', 'u', 'g'),
            Month::September => ('S', 'e', 'p'),
            Month::October => ('O', 'c', 't'),
            Month::November => ('N', 'o', 'v'),
            Month::December => ('D', 'e', 'c'),
        };
        let mut v: Vec<char> = Vec::new();
        v.push(a);
        v.push(b);
        v.push(c);
        let s = string_of(&v, 0, 3);
        assert(v@.subrange(0, 3) == self.abbrev());
        s
    }

    /// Reads a month from its name: the first three characters decide,
    /// whatever their case.
    pub fn from_str(s: &str) -> (r: Result<Month, MonthErr>)
        ensures
            match r {
                Ok(m) => parse_month(s@) == Ok::<Month, MonthErrView>(m),
                Err(e) => parse_month(s@) == Err::<Month, MonthErrView>(e@),
            },
    {
        let v = chars_of(s);
        let r = month_from_chars(&v, 0, v.len());
        assert(v@.subrange(0, v.len() as int) == s@);
        r
    }
}

impl PartialOrd for Date {
    fn partial_cmp(&self, other: &Date) -> (r: Option<Ordering>) {
        if self.year != other.year {
            if self.year < other.year {
                Some(Ordering::Less)
            } else {
                Some(Ordering::Greater)
            }
        } else if self.month.index() != other.month.index() {
            if self.month.index() < other.month.index() {
                Some(Ordering::Less)
            } else {
                Some(Ordering::Greater)
            }
        } else if self.day != other.day {
            if self.day < other.day {
                Some(Ordering::Less)
            } else {
                Some(Ordering::Greater)
            }
        } else {
            Some(Ordering::Equal)
        }
    }
}

impl vstd::std_specs::cmp::PartialOrdSpecImpl for Date {
    open spec fn obeys_partial_cmp_spec() -> bool {
        true
    }

    open spec fn partial_cmp_spec(&self, other: &Date) -> Option<Ordering> {
        if self.ordinal() < other.ordinal() {
            Some(Ordering::Less)
        } else if self.ordinal() > other.ordinal() {
            Some(Ordering::Greater)
        } else {
            Some(Ordering::Equal)
        }
    }
}

impl FromStr for Month {
    type Err = MonthErr;

    /// Reads a month as `Month::from_str` does.
    fn from_str(s: &str) -> (r: Result<Month, MonthErr>)
        ensures
            match r {
                Ok(m) => parse_month(s@) == Ok::<Month, MonthErrView>(m),
                Err(e) => parse_month(s@) == Err::<Month, MonthErrView>(e@),
            },
    {
        Month::from_str(s)
    }
}

impl FromStr for Date {
    type Err = DateErr;

    /// Reads a date as `Date::from_str` does.
    fn from_str(s: &str) -> (r: Result<Date, DateErr>)
        ensures
            match r {
                Ok(d) => parse_date(s@) == Ok::<Date, DateErrView>(d),
                Err(e) => parse_date(s@) == Err::<Date, DateErrView>(e@),
            },
    {
        Date::from_str(s)
    }
}

impl From<MonthErr> for DateErr {
    fn from(er: MonthErr) -> (r: DateErr) {
        DateErr::Month(er)
    }
}

impl vstd::std_specs::convert::FromSpecImpl<MonthErr> for DateErr {
    open spec fn obeys_from_spec() -> bool {
        true
    }

    open spec fn from_spec(er: MonthErr) -> DateErr {
        DateErr::Month(er)
    }
}

/// Reads a month from `v[lo..hi]`.
pub fn month_from_chars(v: &Vec<char>, lo: usize, hi: usize) -> (r: Result<Month, MonthErr>)
    requires
        lo <= hi <= v.len(),
    ensures
        match r {
            Ok(m) => parse_month(v@.subrange(lo as int, hi as int)) == Ok::<Month, MonthErrView>(
                m,
            ),
            Err(e) => parse_month(v@.subrange(lo as int, hi as int)) == Err::<
                Month,
                MonthErrView,
            >(e@),
        },
{
    let ghost s = v@.subrange(lo as int, hi as int);
    let n: usize = if hi - lo < 3 {
        hi - lo
    } else {
        3
    };
    let mut key: Vec<char> = Vec::new();
    let mut i: usize = 0;
    while i < n
        invariant
            lo <= hi <= v.len(),
            n <= hi - lo,
            i <= n,
            s == v@.subrange(lo as int, hi as int),
            key.len() == i,
            forall|k: int| 0 <= k < i ==> key[k] == ascii_lower(#[trigger] s[k]),
        decreases n - i,
    {
        key.push(char_ascii_lower(v[lo + i]));
        i += 1;
    }
    assert(key@ == month_key(s));
    let found: Option<Month> = if n == 3 {
        let a = key[0];
        let b = key[1];
        let c = key[2];
        if a == 'j' && b == 'a' && c == 'n' {
            Some(Month::January)
        } else if a == 'f' && b == 'e' && c == 'b' {
            Some(Month::February)
        } else if a == 'm' && b == 'a' && c == 'r' {
            Some(Month::March)
        } else if a == 'a' && b == 'p' && c == 'r' {
            Some(Month::April)
        } else if a == 'm' && b == 'a' && c == 'y' {
            Some(Month::May)
        } else if a == 'j' && b == 'u' && c == 'n' {
            Some(Month::June)
        } else if a == 'j' && b == 'u' && c == 'l' {
            Some(Month::July)
        } else if a == 'a' && b == 'u' && c == 'g' {
            Some(Month::August)
        } else if a == 's' && b == 'e' && c == 'p' {
            Some(Month::September)
        } else if a == 'o' && b == 'c' && c == 't' {
            Some(Month::October)
        } else if a == 'n' && b == 'o' && c == 'v' {
            Some(Month::November)
        } else if a == 'd' && b == 'e' && c == 'c' {
            Some(Month::December)
        } else {
            None
        }
    } else {
        None
    };
    match found {
        Some(m) => Ok(m),
        None => {
            let name = string_of(&key, 0, n);
            assert(key@.subrange(0, n as int) == key@);
            Err(MonthErr::NotMonth(name))
        },
    }
}

/// The characters of `v` that a date's text keeps.
pub fn clean_chars(v: &Vec<char>) -> (c: Vec<char>)
    ensures
        c@ == clean(v@),
{
    let mut c: Vec<char> = Vec::new();
    let mut i: usize = 0;
    while i < v.len()
        invariant
            i <= v.len(),
            c@ == clean(v@.take(i as int)),
        decreases v.len() - i,
    {
        let x = v[i];
        assert(v@.take(i + 1).drop_last() == v@.take(i as int));
        if char_is_ascii_letter(x) || char_is_ascii_digit(x) || char_is_ascii_whitespace(x) {
            c.push(x);
        }
        i += 1;
    }
    assert(v@.take(v.len() as int) == v@);
    c
}

impl Date {
    /// The date as the site writes it: the month's abbreviation, a space,
    /// the day in at least two digits, a comma and a space, the year.
    pub open spec fn format(self) -> Seq<char> {
        self.month.abbrev() + seq![' '] + two_digits(self.day as nat) + seq![',', ' ']
            + decimal_digits(self.year as nat)
    }

    /// A number that orders dates as year, then month, then day do.
    pub open spec fn ordinal(self) -> int {
        (self.year as int * 12 + self.month.number()) * 256 + self.day as int
    }

    /// Reads a date such as `Jan 3, 2120`. Characters that are neither
    /// letters, digits nor ASCII whitespace are ignored.
    pub fn from_str(s: &str) -> (r: Result<Date, DateErr>)
        ensures
            match r {
                Ok(d) => parse_date(s@) == Ok::<Date, DateErrView>(d),
                Err(e) => parse_date(s@) == Err::<Date, DateErrView>(e@),
            },
    {
        let v = chars_of(s);
        let c = clean_chars(&v);
        let w = split_ascii_whitespace(&c);
        if w.len() != 3 {
            return Err(DateErr::Not3Parts);
        }
        assert(words(c@)[0] == c@.subrange(w[0].0 as int, w[0].1 as int));
        assert(words(c@)[1] == c@.subrange(w[1].0 as int, w[1].1 as int));
        assert(words(c@)[2] == c@.subrange(w[2].0 as int, w[2].1 as int));
        let year: u16 = match parse_decimal(&c, w[2].0, w[2].1, 0xFFFF) {
            Ok(n) => n as u16,
            Err(e) => {
                return Err(DateErr::YearParse(e));
            },
        };
        let month: Month = match month_from_chars(&c, w[0].0, w[0].1) {
            Ok(m) => m,
            Err(e) => {
                return Err(DateErr::Month(e));
            },
        };
        let day: u8 = match parse_decimal(&c, w[1].0, w[1].1, 0xFF) {
            Ok(n) => n as u8,
            Err(e) => {
                return Err(DateErr::DayParse(e));
            },
        };
        Ok(Date { year, month, day })
    }

    /// Writes the date as `Jan 03, 2120`.
    pub fn to_string(&self) -> (s: String)
        ensures
            s@ == self.format(),
    {
        let mut s = self.month.to_string();
        let mut sep: Vec<char> = Vec::new();
        sep.push(' ');
        sep.push('0');
        sep.push(',');
        sep.push(' ');
        append_chars(&mut s, &sep, 0, 1);
        if self.day < 10 {
            append_chars(&mut s, &sep, 1, 2);
        }
        push_decimal(&mut s, self.day as u16);
        append_chars(&mut s, &sep, 2, 4);
        push_decimal(&mut s, self.year);
        proof {
            assert(sep@.subrange(0, 1) == seq![' ']);
            assert(sep@.subrange(1, 2) == seq!['0']);
            assert(sep@.subrange(2, 4) == seq![',', ' ']);
            if self.day < 10 {
                assert(seq!['0'] + decimal_digits(self.day as nat) == two_digits(self.day as nat));
                assert(self.month.abbrev() + seq![' '] + seq!['0'] + decimal_digits(
                    self.day as nat,
                ) == self.month.abbrev() + seq![' '] + (seq!['0'] + decimal_digits(
                    self.day as nat,
                )));
            }
        }
        s
    }
}

/// Cleaning a text cleans its parts.
pub proof fn lemma_clean_concat(a: Seq<char>, b: Seq<char>)
    ensures
        clean(a + b) == clean(a) + clean(b),
    decreases b.len(),
{
    if b.len() == 0 {
        assert(a + b == a);
        assert(clean(a) + clean(b) == clean(a));
    } else {
        lemma_clean_concat(a, b.drop_last());
        assert((a + b).drop_last() == a + b.drop_last());
        assert((a + b).last() == b.last());
        if is_date_char(b.last()) {
            assert((clean(a) + clean(b.drop_last())).push(b.last()) == clean(a) + clean(
                b.drop_last(),
            ).push(b.last()));
        }
    }
}

/// Cleaning keeps a text in which every character is kept.
pub proof fn lemma_clean_kept(a: Seq<char>)
    requires
        forall|i: int| 0 <= i < a.len() ==> is_date_char(#[trigger] a[i]),
    ensures
        clean(a) == a,
    decreases a.len(),
{
    if a.len() > 0 {
        assert forall|i: int| 0 <= i < a.drop_last().len() implies is_date_char(
            #[trigger] a.drop_last()[i],
        ) by {
            assert(a.drop_last()[i] == a[i]);
        }
        lemma_clean_kept(a.drop_last());
        assert(is_date_char(a[a.len() - 1]));
        assert(a.drop_last().push(a.last()) == a);
    }
}

/// A month is read back from its abbreviation.
pub proof fn lemma_parse_month_abbrev(m: Month)
    ensures
        parse_month(m.abbrev()) == Ok::<Month, MonthErrView>(m),
        m.abbrev().len() == 3,
        forall|i: int| 0 <= i < 3 ==> is_ascii_letter(#[trigger] m.abbrev()[i]),
{
    let a = m.abbrev();
    let k = month_key(a);
    assert(k.len() == 3);
    assert(k[0] == ascii_lower(a[0]));
    assert(k[1] == ascii_lower(a[1]));
    assert(k[2] == ascii_lower(a[2]));
}

/// Reading what `format` wrote gives the date back: for every date `d`,
/// `parse_date(d.format())` is `d`.
pub proof fn lemma_parse_format_round_trip(d: Date)
    ensures
        parse_date(d.format()) == Ok::<Date, DateErrView>(d),
{
    let a = d.month.abbrev();
    let dd = two_digits(d.day as nat);
    let yy = decimal_digits(d.year as nat);
    lemma_parse_month_abbrev(d.month);
    lemma_two_digits_value(d.day as nat);
    lemma_decimal_digits_value(d.year as nat);
    assert(is_word(a)) by {
        assert forall|i: int| 0 <= i < a.len() implies !is_ascii_whitespace(#[trigger] a[i]) by {
            assert(is_ascii_letter(a[i]));
        }
    }
    assert(is_word(dd)) by {
        assert forall|i: int| 0 <= i < dd.len() implies !is_ascii_whitespace(#[trigger] dd[i]) by {
            assert(is_ascii_digit(dd[i]));
        }
    }
    assert(is_word(yy)) by {
        assert forall|i: int| 0 <= i < yy.len() implies !is_ascii_whitespace(#[trigger] yy[i]) by {
            assert(is_ascii_digit(yy[i]));
        }
    }
    let sp = seq![' '];
    let cs = seq![',', ' '];
    // What is left of the written date: the comma goes, the rest stays.
    let head = a + sp + dd;
    let kept = head + sp + yy;
    assert(clean(d.format()) == kept) by {
        assert(d.format() == head + cs + yy);
        lemma_clean_concat(head + cs, yy);
        lemma_clean_concat(head, cs);
        assert(clean(head) == head) by {
            assert forall|i: int| 0 <= i < head.len() implies is_date_char(#[trigger] head[i]) by {
                if i < 3 {
                    assert(head[i] == a[i]);
                } else if i > 3 {
                    assert(head[i] == dd[i - 4]);
                }
            }
            lemma_clean_kept(head);
        }
        assert(clean(yy) == yy) by {
            lemma_clean_kept(yy);
        }
        assert(clean(cs) == sp) by {
            let one = cs.drop_last();
            assert(one.drop_last().len() == 0);
            assert(one.last() == ',');
            assert(clean(one.drop_last()).len() == 0);
            assert(clean(one).len() == 0);
            assert(clean(one).push(' ') == sp);
        }
    }
    // Its words are the month, the day and the year.
    assert(words(kept) == seq![a, dd, yy]) by {
        let tail2 = sp + yy;
        let tail1 = sp + (dd + tail2);
        assert(kept == a + tail1);
        lemma_words_leading_word(a, tail1);
        lemma_words_skip_space(' ', dd + tail2);
        lemma_words_leading_word(dd, tail2);
        lemma_words_skip_space(' ', yy);
        lemma_words_leading_word(yy, Seq::empty());
        assert(yy + Seq::<char>::empty() == yy);
        assert(words(Seq::<char>::empty()) == Seq::<Seq<char>>::empty());
        assert(seq![a] + (seq![dd] + (seq![yy] + Seq::<Seq<char>>::empty())) == seq![a, dd, yy]);
    }
}

/// Dates are totally ordered by year, then month, then day: `ordinal`
/// compares as these three do in turn, and two dates of one ordinal are one
/// date.
pub proof fn lemma_date_order(a: Date, b: Date)
    ensures
        a.ordinal() < b.ordinal() <==> (a.year < b.year || (a.year == b.year && (
        a.month.number() < b.month.number() || (a.month.number() == b.month.number() && a.day
            < b.day)))),
        a.ordinal() == b.ordinal() <==> a == b,
{
}

} // verus!
