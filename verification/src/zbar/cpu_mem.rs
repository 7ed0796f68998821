//! The processor and memory pill: what the kernel's counters say.

use vstd::prelude::*;
use vstd::string::*;

use crate::numeral;
use crate::text;

verus! {

/// The numbers among `words`.
pub open spec fn numbers(words: Seq<Seq<char>>) -> Seq<nat>
    decreases words.len(),
{
    if words.len() == 0 {
        Seq::empty()
    } else {
        match numeral::parse_unsigned(words.last(), u64::MAX as nat) {
            Some(v) => numbers(words.drop_last()).push(v),
            None => numbers(words.drop_last()),
        }
    }
}

/// The sum of `v`.
pub open spec fn sum(v: Seq<nat>) -> nat
    decreases v.len(),
{
    if v.len() == 0 {
        0
    } else {
        sum(v.drop_last()) + v.last()
    }
}

/// The counters on the first line of `/proc/stat`: every number after the
/// first word.
pub open spec fn counters(line: Seq<char>) -> Seq<nat> {
    let words = text::words(line);
    if words.len() == 0 {
        Seq::empty()
    } else {
        numbers(words.skip(1))
    }
}

/// The time spent idle and the time in all; both zero when the line has fewer
/// than four counters.
pub open spec fn cpu_times(line: Seq<char>) -> (nat, nat) {
    let c = counters(line);
    if c.len() < 4 {
        (0, 0)
    } else {
        (c[3], sum(c))
    }
}

/// Reads the processor's times.
///
/// The result is `None` only where the counters add up to more than a `u64`
/// can hold.
pub fn read_cpu_times(line: &str) -> (r: Option<(u64, u64)>)
    ensures
        match r {
            Some((idle, total)) => (idle as nat, total as nat) == cpu_times(line@),
            None => counters(line@).len() >= 4 && sum(counters(line@)) > u64::MAX,
        },
{
    let words = text::split_words(text::chars_of(line).as_slice());
    let ghost all = text::words(line@);
    let mut vals: Vec<u64> = Vec::new();
    let ghost had: Seq<nat> = Seq::empty();
    let mut i: usize = 1;
    proof {
        if words@.len() >= 1 {
            assert(all.skip(1).take(0) == Seq::<Seq<char>>::empty());
        }
    }
    while i < words.len()
        invariant
            text::chars_views(words@) == all,
            1 <= i,
            words@.len() >= 1 ==> i <= words@.len(),
            words@.len() >= 1 ==> had == numbers(all.skip(1).take(i - 1)),
            words@.len() == 0 ==> had == Seq::<nat>::empty(),
            vals@.len() == had.len(),
            forall|k: int| 0 <= k < had.len() ==> vals@[k] == had[k],
        decreases words.len() - i,
    {
        let parsed = numeral::parse_up_to(words[i].as_slice(), u64::MAX);
        proof {
            assert(all[i as int] == words@[i as int]@);
            assert(all.skip(1).take(i as int).last() == all[i as int]);
            assert(all.skip(1).take(i as int).drop_last() == all.skip(1).take(i - 1));
        }
        match parsed {
            Some(v) => {
                vals.push(v);
                proof {
                    had = had.push(v as nat);
                }
            },
            None => {},
        }
        i = i + 1;
    }
    proof {
        if words@.len() >= 1 {
            assert(all.skip(1).take(i - 1) == all.skip(1));
        }
        assert(had == counters(line@));
    }
    if vals.len() < 4 {
        return Some((0, 0));
    }
    let mut total: u64 = 0;
    let mut j: usize = 0;
    proof {
        assert(had.take(0) == Seq::<nat>::empty());
    }
    while j < vals.len()
        invariant
            j <= vals@.len(),
            vals@.len() == had.len(),
            vals@.len() >= 4,
            had == counters(line@),
            forall|k: int| 0 <= k < had.len() ==> vals@[k] == had[k],
            total == sum(had.take(j as int)),
        decreases vals.len() - j,
    {
        proof {
            assert(had.take(j + 1).drop_last() == had.take(j as int));
        }
        match total.checked_add(vals[j]) {
            Some(t) => {
                total = t;
            },
            None => {
                proof {
                    lemma_sum_grows(had, j + 1);
                }
                return None;
            },
        }
        j = j + 1;
    }
    proof {
        assert(had.take(j as int) == had);
    }
    Some((vals[3], total))
}

proof fn lemma_sum_grows(v: Seq<nat>, n: int)
    requires
        0 <= n <= v.len(),
    ensures
        sum(v.take(n)) <= sum(v),
    decreases v.len() - n,
{
    if n < v.len() {
        assert(v.take(n + 1).drop_last() == v.take(n));
        lemma_sum_grows(v, n + 1);
    } else {
        assert(v.take(n) == v);
    }
}

/// A size in kibibytes, or zero.
pub open spec fn kb(s: Seq<char>) -> nat {
    match numeral::parse_unsigned(
        text::trim(text::trim_end_matches(text::trim(s), "kB"@)),
        u64::MAX as nat,
    ) {
        Some(v) => v,
        None => 0,
    }
}

fn parse_kb(s: &[char]) -> (r: u64)
    ensures
        r == kb(s@),
{
    let unit = text::chars_of("kB");
    proof {
        reveal_strlit("kB");
    }
    let rest = text::stripped_end(text::trimmed(s), unit.as_slice());
    match numeral::parse_up_to(text::trimmed(rest), u64::MAX) {
        Some(v) => v,
        None => 0,
    }
}

/// What a line of `/proc/meminfo` does to the sizes found so far.
pub open spec fn after_line(line: Seq<char>, found: (nat, nat)) -> (nat, nat) {
    if text::starts_with(line, "MemTotal:"@) {
        (kb(line.skip("MemTotal:"@.len() as int)), found.1)
    } else if text::starts_with(line, "MemAvailable:"@) {
        (found.0, kb(line.skip("MemAvailable:"@.len() as int)))
    } else {
        found
    }
}

/// The total and the available memory that `lines` name: reading stops as
/// soon as both are known.
pub open spec fn mem_sizes(lines: Seq<Seq<char>>, found: (nat, nat)) -> (nat, nat)
    decreases lines.len(),
{
    if lines.len() == 0 {
        found
    } else {
        let next = after_line(lines[0], found);
        if next.0 > 0 && next.1 > 0 {
            next
        } else {
            mem_sizes(lines.skip(1), next)
        }
    }
}

/// Reads the total and the available memory, in kibibytes.
pub fn read_mem(content: &str) -> (r: (u64, u64))
    ensures
        (r.0 as nat, r.1 as nat) == mem_sizes(text::lines(content@), (0, 0)),
{
    let rows = text::split_lines(text::chars_of(content).as_slice());
    let ghost all = text::lines(content@);
    let total_key = text::chars_of("MemTotal:");
    let available_key = text::chars_of("MemAvailable:");
    let mut total: u64 = 0;
    let mut available: u64 = 0;
    let mut i: usize = 0;
    proof {
        assert(all.skip(0) == all);
    }
    while i < rows.len()
        invariant
            text::chars_views(rows@) == all,
            all == text::lines(content@),
            i <= rows@.len(),
            total_key@ == "MemTotal:"@,
            available_key@ == "MemAvailable:"@,
            mem_sizes(all, (0, 0)) == mem_sizes(all.skip(i as int), (total as nat, available as nat)),
        decreases rows.len() - i,
    {
        let row = rows[i].as_slice();
        proof {
            assert(all[i as int] == row@);
            assert(all.skip(i as int)[0] == row@);
            assert(all.skip(i as int).skip(1) == all.skip(i + 1));
        }
        if text::match_at(row, total_key.as_slice(), 0) {
            let rest = vstd::slice::slice_subrange(row, total_key.len(), row.len());
            proof {
                assert(rest@ == row@.skip("MemTotal:"@.len() as int));
            }
            total = parse_kb(rest);
        } else if text::match_at(row, available_key.as_slice(), 0) {
            let rest = vstd::slice::slice_subrange(row, available_key.len(), row.len());
            proof {
                assert(rest@ == row@.skip("MemAvailable:"@.len() as int));
            }
            available = parse_kb(rest);
        }
        if total > 0 && available > 0 {
            return (total, available);
        }
        i = i + 1;
    }
    (total, available)
}

/// The processor counters of the last sample.
#[derive(Clone, Copy, Debug)]
pub struct CpuMemModule {
    pub prev_idle: u64,
    pub prev_total: u64,
}

/// `a - b`, or zero.
pub open spec fn less(a: u64, b: u64) -> int {
    if a > b {
        a - b
    } else {
        0
    }
}

impl CpuMemModule {
    /// The module with its first sample.
    pub fn new(idle: u64, total: u64) -> (r: Self)
        ensures
            r.prev_idle == idle,
            r.prev_total == total,
    {
        CpuMemModule { prev_idle: idle, prev_total: total }
    }

    /// Takes a sample; returns how much idle time and how much time in all
    /// passed since the last one, zero where a counter went back.
    pub fn sample(&mut self, idle: u64, total: u64) -> (r: (u64, u64))
        ensures
            final(self).prev_idle == idle,
            final(self).prev_total == total,
            r.0 == less(idle, old(self).prev_idle),
            r.1 == less(total, old(self).prev_total),
    {
        let d_total = if total > self.prev_total {
            total - self.prev_total
        } else {
            0
        };
        let d_idle = if idle > self.prev_idle {
            idle - self.prev_idle
        } else {
            0
        };
        self.prev_idle = idle;
        self.prev_total = total;
        (d_idle, d_total)
    }
}

proof fn lemma_sum_of_both(a: Seq<nat>, b: Seq<nat>)
    ensures
        sum(a + b) == sum(a) + sum(b),
    decreases b.len(),
{
    if b.len() == 0 {
        assert(a + b =~= a);
    } else {
        lemma_sum_of_both(a, b.drop_last());
        assert((a + b).drop_last() =~= a + b.drop_last());
    }
}

/// The counters of a line are the numbers after its first word, words that are
/// no numbers left out; the idle time is the fourth, and the total is the sum of
/// all.
pub proof fn law_processor_times(line: Seq<char>, more: Seq<nat>, a: nat, b: nat, c: nat, d: nat)
    ensures
        counters(line) == seq![a, b, c, d] + more ==> cpu_times(line) == (d, a + b + c + d + sum(
            more,
        )),
        counters(line).len() < 4 ==> cpu_times(line) == (0nat, 0nat),
{
    let four = seq![a, b, c, d];
    lemma_sum_of_both(four, more);
    let three = four.drop_last();
    let two = three.drop_last();
    let one = two.drop_last();
    assert(one.drop_last() =~= Seq::empty());
    assert(sum(one.drop_last()) == 0);
    assert(sum(one) == a);
    assert(sum(two) == a + b);
    assert(sum(three) == a + b + c);
}

/// Each word that is a number is read, in its place, and no other.
pub proof fn law_numbers_among_words(words: Seq<Seq<char>>, w: Seq<char>)
    ensures
        numbers(Seq::empty()) == Seq::<nat>::empty(),
        match numeral::parse_unsigned(w, u64::MAX as nat) {
            Some(v) => numbers(words.push(w)) == numbers(words).push(v),
            None => numbers(words.push(w)) == numbers(words),
        },
{
    assert(words.push(w).drop_last() =~= words);
}

/// The total is that of the last `MemTotal:` line read, the available memory
/// that of the last `MemAvailable:` line; reading stops when both are known.
pub proof fn law_memory_sizes(line: Seq<char>, rest: Seq<Seq<char>>, found: (nat, nat))
    ensures
        ({
            let next = (
                if ("MemTotal:"@).is_prefix_of(line) {
                    kb(line.skip("MemTotal:"@.len() as int))
                } else {
                    found.0
                },
                if ("MemAvailable:"@).is_prefix_of(line) {
                    kb(line.skip("MemAvailable:"@.len() as int))
                } else {
                    found.1
                },
            );
            mem_sizes(seq![line] + rest, found) == (if next.0 > 0 && next.1 > 0 {
                next
            } else {
                mem_sizes(rest, next)
            })
        }),
        mem_sizes(Seq::empty(), found) == found,
{
    let s = seq![line] + rest;
    assert(s.skip(1) =~= rest);
    assert(s[0] == line);
    text::law_places_of_a_text(line, "MemTotal:"@);
    text::law_places_of_a_text(line, "MemAvailable:"@);
    reveal_strlit("MemTotal:");
    reveal_strlit("MemAvailable:");
    if text::starts_with(line, "MemTotal:"@) && text::starts_with(line, "MemAvailable:"@) {
        assert(line.subrange(0, 9)[3] == 'T');
        assert(line.subrange(0, 13)[3] == 'A');
    }
}

/// Between two samples the times that passed are told, and none where a counter
/// went back; the next sample counts from this one.
pub proof fn law_samples_count_from_the_last(
    m: &mut CpuMemModule,
    idle: u64,
    total: u64,
    r: (u64, u64),
)
    requires
        call_ensures(CpuMemModule::sample, (m, idle, total), r),
    ensures
        final(m).prev_idle == idle && final(m).prev_total == total,
        idle >= old(m).prev_idle ==> r.0 == idle - old(m).prev_idle,
        idle < old(m).prev_idle ==> r.0 == 0,
        total >= old(m).prev_total ==> r.1 == total - old(m).prev_total,
        total < old(m).prev_total ==> r.1 == 0,
{
}

/// A size in kilobytes is the number before its unit, with white space round it.
pub proof fn law_kilobytes(n: nat, s: Seq<char>)
    requires
        n <= u64::MAX,
        text::trim(s) == numeral::decimal(n) + seq![' '] + "kB"@,
    ensures
        kb(s) == n,
{
    numeral::law_decimal_round_trip(n, u64::MAX as nat);
    let d = numeral::decimal(n);
    let u = "kB"@;
    reveal_strlit("kB");
    let sp = d + seq![' '];
    assert(d + seq![' '] + u =~= sp + u);
    text::law_endings_are_taken_off(sp, u);
    assert(!u.is_suffix_of(sp)) by {
        if u.is_suffix_of(sp) {
            assert(u =~= sp.subrange(sp.len() - 2, sp.len() as int));
            assert(sp.subrange(sp.len() - 2, sp.len() as int)[1] == ' ');
            assert(u[1] == 'B');
        }
    }
    assert(text::trim_end_matches(text::trim(s), u) == sp);
    assert(numeral::is_digit(d[0]));
    assert(numeral::is_digit(d[d.len() - 1]));
    assert(sp[0] == d[0]);
    assert(text::trim_start(sp) == sp);
    assert(sp.drop_last() =~= d);
    assert(sp.last() == ' ');
    assert(text::trim_end(d) == d);
    assert(text::trim_end(sp) == d);
}

} // verus!
