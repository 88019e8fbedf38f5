//! What one output supports: its resolutions and its refresh rates, each
//! listed once, the highest first, as read from the lines of a listing.

use crate::pattern::{groups, search, search_result};
use crate::screen::{rate_of, resolution_of, Error, ErrorView, Mode, Rate, Resolution};
use crate::text::texts;
use vstd::prelude::*;

verus! {

/// The pattern of one line of a listing of modes: a resolution, a blank, a
/// refresh rate with a decimal point, and the end of the line.
pub const MODE_LINE: &'static str = "(\\d+x\\d+) (\\d+\\.\\d+)\n";

/// Each number is greater than all that follow it.
pub open spec fn strictly_descending(s: Seq<u32>) -> bool {
    forall|i: int, j: int| 0 <= i < j < s.len() ==> s[i] > s[j]
}

/// The two sequences hold the same numbers, however often and in whatever
/// order.
pub open spec fn same_members(a: Seq<u32>, b: Seq<u32>) -> bool {
    forall|v: u32| a.contains(v) <==> b.contains(v)
}

/// The numbers of `array`, each once, the greatest first.
pub fn sort_and_filter_unique(array: &Vec<u32>) -> (out: Vec<u32>)
    ensures
        strictly_descending(out@),
        same_members(out@, array@),
{
    let mut out: Vec<u32> = Vec::new();
    let mut i: usize = 0;
    while i < array.len()
        invariant
            i <= array.len(),
            strictly_descending(out@),
            same_members(out@, array@.take(i as int)),
        decreases array.len() - i,
    {
        let x = array[i];
        let mut p: usize = 0;
        while p < out.len() && out[p] > x
            invariant
                p <= out.len(),
                forall|k: int| 0 <= k < p ==> out@[k] > x,
            decreases out.len() - p,
        {
            p += 1;
        }
        let ghost before = out@;
        let ghost seen = array@.take(i as int);
        let ghost next = array@.take(i + 1);
        proof {
            assert(next == seen.push(x));
            assert forall|v: u32| next.contains(v) <==> (seen.contains(v) || v == x) by {
                if seen.contains(v) {
                    let k = choose|k: int| 0 <= k < seen.len() && seen[k] == v;
                    assert(next[k] == v);
                }
                if v == x {
                    assert(next[i as int] == x);
                }
            }
        }
        if p == out.len() || out[p] != x {
            out.insert(p, x);
            proof {
                before.insert_ensures(p as int, x);
                let after = out@;
                assert forall|a: int, b: int| 0 <= a < b < after.len() implies after[a]
                    > after[b] by {
                    if b < p {
                    } else if b == p {
                    } else {
                        assert(after[b] == before[b - 1]);
                        if a < p {
                            assert(after[a] == before[a]);
                            if p < before.len() {
                                assert(before[p as int] <= x);
                            }
                        } else if a == p {
                            assert(before[p as int] < x);
                        } else {
                            assert(after[a] == before[a - 1]);
                        }
                    }
                }
                assert forall|v: u32| after.contains(v) <==> (before.contains(v) || v
                    == x) by {
                    if after.contains(v) {
                        let k = choose|k: int| 0 <= k < after.len() && after[k] == v;
                        if k < p {
                            assert(before[k] == v);
                        } else if k > p {
                            assert(before[k - 1] == v);
                        }
                    }
                    if before.contains(v) {
                        let k = choose|k: int| 0 <= k < before.len() && before[k] == v;
                        if k < p {
                            assert(after[k] == v);
                        } else {
                            assert(after[k + 1] == v);
                        }
                    }
                    if v == x {
                        assert(after[p as int] == x);
                    }
                }
            }
        } else {
            proof {
                assert(before[p as int] == x);
                assert(before.contains(x));
            }
        }
        i += 1;
    }
    assert(array@.take(array.len() as int) == array@);
    out
}

/// Two strictly descending sequences with the same members are one and the
/// same sequence: the contract of `sort_and_filter_unique` leaves one result.
pub proof fn lemma_descending_unique(a: Seq<u32>, b: Seq<u32>)
    requires
        strictly_descending(a),
        strictly_descending(b),
        same_members(a, b),
    ensures
        a == b,
    decreases a.len(),
{
    if a.len() == 0 {
        if b.len() > 0 {
            assert(b.contains(b[0]));
            assert(a.contains(b[0]));
        }
        assert(a =~= b);
    } else {
        assert(a.contains(a[0]));
        assert(b.contains(a[0]));
        let k = choose|k: int| 0 <= k < b.len() && b[k] == a[0];
        assert(b.contains(b[0]));
        assert(a.contains(b[0]));
        let m = choose|m: int| 0 <= m < a.len() && a[m] == b[0];
        assert(a[0] == b[0]);
        let ra = a.skip(1);
        let rb = b.skip(1);
        assert forall|v: u32| ra.contains(v) <==> rb.contains(v) by {
            if ra.contains(v) {
                let i = choose|i: int| 0 <= i < ra.len() && ra[i] == v;
                assert(a[i + 1] == v);
                assert(a.contains(v));
                assert(b.contains(v));
                let j = choose|j: int| 0 <= j < b.len() && b[j] == v;
                assert(j > 0);
                assert(rb[j - 1] == v);
            }
            if rb.contains(v) {
                let i = choose|i: int| 0 <= i < rb.len() && rb[i] == v;
                assert(b[i + 1] == v);
                assert(b.contains(v));
                assert(a.contains(v));
                let j = choose|j: int| 0 <= j < a.len() && a[j] == v;
                assert(j > 0);
                assert(ra[j - 1] == v);
            }
        }
        assert(strictly_descending(ra)) by {
            assert forall|i: int, j: int| 0 <= i < j < ra.len() implies ra[i] > ra[j] by {
                assert(ra[i] == a[i + 1] && ra[j] == a[j + 1]);
            }
        }
        assert(strictly_descending(rb)) by {
            assert forall|i: int, j: int| 0 <= i < j < rb.len() implies rb[i] > rb[j] by {
                assert(rb[i] == b[i + 1] && rb[j] == b[j + 1]);
            }
        }
        lemma_descending_unique(ra, rb);
        assert(a =~= seq![a[0]] + ra);
        assert(b =~= seq![b[0]] + rb);
    }
}

/// The group `i` of a match; the empty text where the match has no such
/// group.
pub open spec fn group(line: Seq<Seq<char>>, i: int) -> Seq<char> {
    if 0 <= i < line.len() {
        line[i]
    } else {
        Seq::empty()
    }
}

/// The mode that one matched line gives: its first group read as a
/// resolution, its second as a refresh rate. The resolution is read first, so
/// a line on which both are wrong is wrong for its resolution.
pub open spec fn line_mode(line: Seq<Seq<char>>) -> Result<Mode, ErrorView> {
    match resolution_of(group(line, 1)) {
        None => Err(ErrorView::InvalidResolution(group(line, 1))),
        Some(resolution) => match rate_of(group(line, 2)) {
            None => Err(ErrorView::InvalidRate(group(line, 2))),
            Some(rate) => Ok(Mode { resolution, rate }),
        },
    }
}

/// What is wrong with the first of `lines` that gives no mode, if any does
/// not.
pub open spec fn first_error(lines: Seq<Seq<Seq<char>>>) -> Option<ErrorView>
    decreases lines.len(),
{
    if lines.len() == 0 {
        None
    } else {
        match line_mode(lines[0]) {
            Err(error) => Some(error),
            Ok(_) => first_error(lines.skip(1)),
        }
    }
}

/// Whether one of `lines` gives a mode with the resolution `r`.
pub open spec fn lists_resolution(lines: Seq<Seq<Seq<char>>>, r: Resolution) -> bool {
    exists|i: int|
        0 <= i < lines.len() && (#[trigger] line_mode(lines[i])) is Ok && line_mode(
            lines[i],
        )->Ok_0.resolution == r
}

/// Whether one of `lines` gives a mode with the rate `r`.
pub open spec fn lists_rate(lines: Seq<Seq<Seq<char>>>, r: Rate) -> bool {
    exists|i: int|
        0 <= i < lines.len() && (#[trigger] line_mode(lines[i])) is Ok && line_mode(
            lines[i],
        )->Ok_0.rate == r
}

/// Each resolution stands before all lower ones.
pub open spec fn descending_resolutions(list: Seq<Resolution>) -> bool {
    forall|i: int, j: int| 0 <= i < j < list.len() ==> list[j].is_below(list[i])
}

/// Each rate stands before all lower ones.
pub open spec fn descending_rates(list: Seq<Rate>) -> bool {
    forall|i: int, j: int| 0 <= i < j < list.len() ==> list[j].value < list[i].value
}

/// The resolutions of the modes that `lines` give, each once, the highest
/// first.
pub open spec fn listed_resolutions(lines: Seq<Seq<Seq<char>>>) -> Seq<Resolution> {
    choose|list: Seq<Resolution>|
        descending_resolutions(list) && forall|r: Resolution| #[trigger]
            list.contains(r) <==> lists_resolution(lines, r)
}

/// The rates of the modes that `lines` give, each once, the highest first.
pub open spec fn listed_rates(lines: Seq<Seq<Seq<char>>>) -> Seq<Rate> {
    choose|list: Seq<Rate>|
        descending_rates(list) && forall|r: Rate| #[trigger]
            list.contains(r) <==> lists_rate(lines, r)
}

/// What an output supports, as two sequences.
pub struct ModesView {
    pub resolutions: Seq<Resolution>,
    pub rates: Seq<Rate>,
}

/// What `lines` read as: the error of the first line that gives no mode; else
/// the modes of all lines, their resolutions and their rates each listed
/// once, the highest first.
pub open spec fn modes_of(lines: Seq<Seq<Seq<char>>>) -> Result<ModesView, ErrorView> {
    match first_error(lines) {
        Some(error) => Err(error),
        None => Ok(
            ModesView { resolutions: listed_resolutions(lines), rates: listed_rates(lines) },
        ),
    }
}

/// Only one sequence lists given resolutions each once, the highest first.
pub proof fn lemma_resolutions_unique(a: Seq<Resolution>, b: Seq<Resolution>)
    requires
        descending_resolutions(a),
        descending_resolutions(b),
        forall|r: Resolution| a.contains(r) <==> b.contains(r),
    ensures
        a == b,
{
    let ra = Seq::new(a.len(), |i: int| a[i].rank());
    let rb = Seq::new(b.len(), |i: int| b[i].rank());
    assert(strictly_descending(ra)) by {
        assert forall|i: int, j: int| 0 <= i < j < ra.len() implies ra[i] > ra[j] by {
            assert(a[j].is_below(a[i]));
        }
    }
    assert(strictly_descending(rb)) by {
        assert forall|i: int, j: int| 0 <= i < j < rb.len() implies rb[i] > rb[j] by {
            assert(b[j].is_below(b[i]));
        }
    }
    assert forall|v: u32| ra.contains(v) <==> rb.contains(v) by {
        if ra.contains(v) {
            let i = choose|i: int| 0 <= i < ra.len() && ra[i] == v;
            assert(a.contains(a[i]));
            assert(b.contains(a[i]));
            let j = choose|j: int| 0 <= j < b.len() && b[j] == a[i];
            assert(rb[j] == v);
        }
        if rb.contains(v) {
            let i = choose|i: int| 0 <= i < rb.len() && rb[i] == v;
            assert(b.contains(b[i]));
            assert(a.contains(b[i]));
            let j = choose|j: int| 0 <= j < a.len() && a[j] == b[i];
            assert(ra[j] == v);
        }
    }
    lemma_descending_unique(ra, rb);
    assert(ra.len() == a.len() && rb.len() == b.len());
    assert(a.len() == b.len());
    assert forall|i: int| 0 <= i < a.len() implies a[i] == b[i] by {
        assert(ra[i] == rb[i]);
    }
    assert(a =~= b);
}

/// Only one sequence lists given rates each once, the highest first.
pub proof fn lemma_rates_unique(a: Seq<Rate>, b: Seq<Rate>)
    requires
        descending_rates(a),
        descending_rates(b),
        forall|r: Rate| a.contains(r) <==> b.contains(r),
    ensures
        a == b,
{
    let ra = Seq::new(a.len(), |i: int| a[i].value as u32);
    let rb = Seq::new(b.len(), |i: int| b[i].value as u32);
    assert forall|v: u32| ra.contains(v) <==> rb.contains(v) by {
        if ra.contains(v) {
            let i = choose|i: int| 0 <= i < ra.len() && ra[i] == v;
            assert(a.contains(a[i]));
            assert(b.contains(a[i]));
            let j = choose|j: int| 0 <= j < b.len() && b[j] == a[i];
            assert(rb[j] == v);
        }
        if rb.contains(v) {
            let i = choose|i: int| 0 <= i < rb.len() && rb[i] == v;
            assert(b.contains(b[i]));
            assert(a.contains(b[i]));
            let j = choose|j: int| 0 <= j < a.len() && a[j] == b[i];
            assert(ra[j] == v);
        }
    }
    lemma_descending_unique(ra, rb);
    assert(ra.len() == a.len() && rb.len() == b.len());
    assert(a.len() == b.len());
    assert forall|i: int| 0 <= i < a.len() implies a[i] == b[i] by {
        assert(ra[i] == rb[i]);
    }
    assert(a =~= b);
}

/// What the listing `text` reads as: the modes of its lines that match
/// `MODE_LINE`.
pub open spec fn modes_in(text: Seq<char>) -> Result<ModesView, ErrorView> {
    match search_result(MODE_LINE@, text) {
        Ok(lines) => modes_of(lines),
        Err(error) => Err(error),
    }
}

/// The resolutions and the refresh rates that one output supports.
#[derive(Debug, PartialEq, Eq)]
pub struct OutputModes {
    pub resolutions: Vec<Resolution>,
    pub rates: Vec<Rate>,
}

impl Clone for OutputModes {
    fn clone(&self) -> (out: Self)
        ensures
            out@ == self@,
    {
        let mut resolutions: Vec<Resolution> = Vec::new();
        let mut i: usize = 0;
        while i < self.resolutions.len()
            invariant
                i <= self.resolutions.len(),
                resolutions@ == self.resolutions@.take(i as int),
            decreases self.resolutions.len() - i,
        {
            resolutions.push(self.resolutions[i]);
            assert(self.resolutions@.take(i + 1) == self.resolutions@.take(i as int).push(
                self.resolutions@[i as int],
            ));
            i += 1;
        }
        let mut rates: Vec<Rate> = Vec::new();
        let mut i: usize = 0;
        while i < self.rates.len()
            invariant
                i <= self.rates.len(),
                rates@ == self.rates@.take(i as int),
            decreases self.rates.len() - i,
        {
            rates.push(self.rates[i]);
            assert(self.rates@.take(i + 1) == self.rates@.take(i as int).push(
                self.rates@[i as int],
            ));
            i += 1;
        }
        assert(self.resolutions@.take(self.resolutions.len() as int) == self.resolutions@);
        assert(self.rates@.take(self.rates.len() as int) == self.rates@);
        OutputModes { resolutions, rates }
    }
}

impl View for OutputModes {
    type V = ModesView;

    open spec fn view(&self) -> ModesView {
        ModesView { resolutions: self.resolutions@, rates: self.rates@ }
    }
}

impl Default for OutputModes {
    fn default() -> (out: Self)
        ensures
            out.resolutions@.len() == 0,
            out.rates@.len() == 0,
    {
        OutputModes { resolutions: Vec::new(), rates: Vec::new() }
    }
}

impl OutputModes {
    /// Each resolution stands before all lower ones and each rate before all
    /// lower ones, so none stands twice.
    pub open spec fn wf(&self) -> bool {
        descending_resolutions(self.resolutions@) && descending_rates(self.rates@)
    }

    /// Whether the output cannot be driven: it lacks a resolution or it lacks
    /// a rate.
    pub fn is_empty(&self) -> (empty: bool)
        ensures
            empty == (self.resolutions@.len() == 0 || self.rates@.len() == 0),
    {
        self.resolutions.is_empty() || self.rates.is_empty()
    }

    /// The notations of the resolutions, in their order.
    pub fn resolutions(&self) -> (out: Vec<String>)
        ensures
            out@.len() == self.resolutions@.len(),
            forall|i: int| 0 <= i < out@.len() ==> out@[i]@ == self.resolutions@[i].text(),
    {
        let mut out: Vec<String> = Vec::new();
        let mut i: usize = 0;
        while i < self.resolutions.len()
            invariant
                i <= self.resolutions.len(),
                out@.len() == i,
                forall|j: int| 0 <= j < i ==> out@[j]@ == self.resolutions@[j].text(),
            decreases self.resolutions.len() - i,
        {
            out.push(self.resolutions[i].to_string());
            i += 1;
        }
        out
    }

    /// The notations of the rates, in their order.
    pub fn rates(&self) -> (out: Vec<String>)
        ensures
            out@.len() == self.rates@.len(),
            forall|i: int| 0 <= i < out@.len() ==> out@[i]@ == self.rates@[i].text(),
    {
        let mut out: Vec<String> = Vec::new();
        let mut i: usize = 0;
        while i < self.rates.len()
            invariant
                i <= self.rates.len(),
                out@.len() == i,
                forall|j: int| 0 <= j < i ==> out@[j]@ == self.rates@[j].text(),
            decreases self.rates.len() - i,
        {
            out.push(self.rates[i].to_string());
            i += 1;
        }
        out
    }

    /// Lists each resolution and each rate once, the highest first.
    pub fn remove_duplicates(&mut self)
        ensures
            final(self).wf(),
            forall|r: Resolution|
                final(self).resolutions@.contains(r) <==> old(self).resolutions@.contains(r),
            forall|r: Rate| final(self).rates@.contains(r) <==> old(self).rates@.contains(r),
    {
        let ghost before = *self;
        let mut ranks: Vec<u32> = Vec::new();
        let mut i: usize = 0;
        while i < self.resolutions.len()
            invariant
                *self == before,
                i <= self.resolutions.len(),
                ranks@.len() == i,
                forall|j: int| 0 <= j < i ==> ranks@[j] == self.resolutions@[j].rank(),
            decreases self.resolutions.len() - i,
        {
            let resolution = self.resolutions[i];
            ranks.push(resolution.height as u32 * 0x1_0000 + resolution.width as u32);
            i += 1;
        }
        let sorted = sort_and_filter_unique(&ranks);
        let mut resolutions: Vec<Resolution> = Vec::new();
        let mut i: usize = 0;
        while i < sorted.len()
            invariant
                i <= sorted.len(),
                resolutions@.len() == i,
                forall|j: int| 0 <= j < i ==> resolutions@[j].rank() == sorted@[j],
            decreases sorted.len() - i,
        {
            let rank = sorted[i];
            resolutions.push(
                Resolution { height: (rank / 0x1_0000) as u16, width: (rank % 0x1_0000) as u16 },
            );
            i += 1;
        }
        proof {
            assert forall|r: Resolution|
                resolutions@.contains(r) <==> before.resolutions@.contains(r) by {
                if resolutions@.contains(r) {
                    let j = choose|j: int| 0 <= j < resolutions@.len() && resolutions@[j] == r;
                    assert(sorted@[j] == r.rank());
                    assert(sorted@.contains(r.rank()));
                    assert(ranks@.contains(r.rank()));
                    let k = choose|k: int| 0 <= k < ranks@.len() && ranks@[k] == r.rank();
                    assert(before.resolutions@[k].rank() == r.rank());
                    assert(before.resolutions@[k] == r);
                }
                if before.resolutions@.contains(r) {
                    let k = choose|k: int|
                        0 <= k < before.resolutions@.len() && before.resolutions@[k] == r;
                    assert(ranks@[k] == r.rank());
                    assert(ranks@.contains(r.rank()));
                    assert(sorted@.contains(r.rank()));
                    let j = choose|j: int| 0 <= j < sorted@.len() && sorted@[j] == r.rank();
                    assert(resolutions@[j].rank() == r.rank());
                    assert(resolutions@[j] == r);
                }
            }
            assert forall|i: int, j: int|
                0 <= i < j < resolutions@.len() implies resolutions@[j].is_below(
                resolutions@[i],
            ) by {
                assert(sorted@[i] > sorted@[j]);
            }
        }
        let mut values: Vec<u32> = Vec::new();
        let mut i: usize = 0;
        while i < self.rates.len()
            invariant
                *self == before,
                i <= self.rates.len(),
                values@.len() == i,
                forall|j: int| 0 <= j < i ==> values@[j] == self.rates@[j].value,
            decreases self.rates.len() - i,
        {
            values.push(self.rates[i].value as u32);
            i += 1;
        }
        let sorted = sort_and_filter_unique(&values);
        let mut rates: Vec<Rate> = Vec::new();
        let mut i: usize = 0;
        while i < sorted.len()
            invariant
                i <= sorted.len(),
                rates@.len() == i,
                same_members(sorted@, values@),
                forall|j: int| 0 <= j < values@.len() ==> values@[j] <= u16::MAX,
                forall|j: int| 0 <= j < i ==> rates@[j].value == sorted@[j],
            decreases sorted.len() - i,
        {
            let value = sorted[i];
            proof {
                assert(sorted@.contains(value));
                assert(values@.contains(value));
            }
            rates.push(Rate { value: value as u16 });
            i += 1;
        }
        proof {
            assert forall|r: Rate| rates@.contains(r) <==> before.rates@.contains(r) by {
                if rates@.contains(r) {
                    let j = choose|j: int| 0 <= j < rates@.len() && rates@[j] == r;
                    assert(sorted@[j] == r.value);
                    assert(sorted@.contains(r.value as u32));
                    assert(values@.contains(r.value as u32));
                    let k = choose|k: int| 0 <= k < values@.len() && values@[k] == r.value;
                    assert(before.rates@[k] == r);
                }
                if before.rates@.contains(r) {
                    let k = choose|k: int| 0 <= k < before.rates@.len() && before.rates@[k] == r;
                    assert(values@[k] == r.value);
                    assert(values@.contains(r.value as u32));
                    assert(sorted@.contains(r.value as u32));
                    let j = choose|j: int| 0 <= j < sorted@.len() && sorted@[j] == r.value;
                    assert(rates@[j] == r);
                }
            }
            assert forall|i: int, j: int| 0 <= i < j < rates@.len() implies rates@[j].value
                < rates@[i].value by {
                assert(sorted@[i] > sorted@[j]);
            }
        }
        self.resolutions = resolutions;
        self.rates = rates;
    }

    /// Lists one more mode: its resolution and its rate, each at the end.
    pub fn add(&mut self, resolution: Resolution, rate: Rate)
        ensures
            final(self).resolutions@ == old(self).resolutions@.push(resolution),
            final(self).rates@ == old(self).rates@.push(rate),
    {
        self.resolutions.push(resolution);
        self.rates.push(rate);
    }

    /// Reads the modes of the matched lines `lines`, each the list of its
    /// groups: the whole line, the resolution, the rate.
    pub fn from_captures(lines: &Vec<Vec<String>>) -> (out: Result<OutputModes, Error>)
        ensures
            match out {
                Ok(modes) => modes_of(groups(lines@)) == Ok::<ModesView, ErrorView>(modes@)
                    && modes.wf(),
                Err(error) => modes_of(groups(lines@)) == Err::<ModesView, ErrorView>(error@),
            },
    {
        let ghost all = groups(lines@);
        let mut modes = OutputModes { resolutions: Vec::new(), rates: Vec::new() };
        let empty = String::new();
        let mut i: usize = 0;
        assert(all.skip(0) == all);
        while i < lines.len()
            invariant
                i <= lines.len(),
                all == groups(lines@),
                empty@ == Seq::<char>::empty(),
                first_error(all) == first_error(all.skip(i as int)),
                modes.resolutions@.len() == i,
                modes.rates@.len() == i,
                forall|j: int|
                    0 <= j < i ==> line_mode(#[trigger] all[j]) == Ok::<Mode, ErrorView>(
                        Mode { resolution: modes.resolutions@[j], rate: modes.rates@[j] },
                    ),
            decreases lines.len() - i,
        {
            let line = &lines[i];
            let ghost rest = all.skip(i as int);
            proof {
                assert(rest[0] == all[i as int]);
                assert(all[i as int] == texts(line@));
                assert(rest.skip(1) == all.skip(i + 1));
            }
            let resolution_text = if 1 < line.len() {
                &line[1]
            } else {
                &empty
            };
            let rate_text = if 2 < line.len() {
                &line[2]
            } else {
                &empty
            };
            let resolution = match Resolution::from_str(resolution_text.as_str()) {
                Ok(resolution) => resolution,
                Err(error) => {
                    return Err(error);
                },
            };
            let rate = match Rate::from_str(rate_text.as_str()) {
                Ok(rate) => rate,
                Err(error) => {
                    return Err(error);
                },
            };
            modes.add(resolution, rate);
            i += 1;
        }
        let ghost listed = modes;
        modes.remove_duplicates();
        proof {
            assert(first_error(all.skip(lines.len() as int)) is None);
            assert forall|r: Resolution| #[trigger]
                modes.resolutions@.contains(r) <==> lists_resolution(all, r) by {
                if listed.resolutions@.contains(r) {
                    let k = choose|k: int|
                        0 <= k < listed.resolutions@.len() && listed.resolutions@[k] == r;
                    assert(line_mode(all[k]) is Ok && line_mode(all[k])->Ok_0.resolution == r);
                }
                if lists_resolution(all, r) {
                    let k = choose|i: int|
                        0 <= i < all.len() && (#[trigger] line_mode(all[i])) is Ok && line_mode(
                            all[i],
                        )->Ok_0.resolution == r;
                    assert(listed.resolutions@[k] == r);
                }
            }
            assert forall|r: Rate| #[trigger] modes.rates@.contains(r) <==> lists_rate(
                all,
                r,
            ) by {
                if listed.rates@.contains(r) {
                    let k = choose|k: int| 0 <= k < listed.rates@.len() && listed.rates@[k] == r;
                    assert(line_mode(all[k]) is Ok && line_mode(all[k])->Ok_0.rate == r);
                }
                if lists_rate(all, r) {
                    let k = choose|i: int|
                        0 <= i < all.len() && (#[trigger] line_mode(all[i])) is Ok && line_mode(
                            all[i],
                        )->Ok_0.rate == r;
                    assert(listed.rates@[k] == r);
                }
            }
            lemma_resolutions_unique(modes.resolutions@, listed_resolutions(all));
            lemma_rates_unique(modes.rates@, listed_rates(all));
        }
        Ok(modes)
    }

    /// Reads what an output supports from a listing: every stretch of the text
    /// that matches `MODE_LINE` gives one mode.
    pub fn from_str(screen_settings: &str) -> (out: Result<OutputModes, Error>)
        ensures
            match out {
                Ok(modes) => modes_in(screen_settings@) == Ok::<ModesView, ErrorView>(modes@)
                    && modes.wf(),
                Err(error) => modes_in(screen_settings@) == Err::<ModesView, ErrorView>(error@),
            },
    {
        match search(MODE_LINE, screen_settings) {
            Ok(lines) => OutputModes::from_captures(&lines),
            Err(error) => Err(error),
        }
    }
}

} // verus!
