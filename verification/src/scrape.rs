//! The bodies of scrape responses, and the timer that says when to serve
//! the endpoint.

use vstd::prelude::*;
use vstd::string::StringExecFns;
use crate::arith::saturating_sum;
use crate::data::meters::integer_pairs;
use crate::text::decimal;
use crate::text::decimal_string;
use crate::text::digit_char;
use crate::text::digit_str;
use crate::text::push_decimal;

verus! {

/// The key and text of each pair, as sequences of characters.
pub open spec fn text_pairs(entries: Seq<(String, String)>) -> Seq<(Seq<char>, Seq<char>)> {
    Seq::new(entries.len(), |i: int| (entries[i].0@, entries[i].1@))
}

/// A number of thousandths written as a decimal fraction: the whole part, a
/// point and three digits.
pub open spec fn thousandths(v: nat) -> Seq<char> {
    decimal(v / 1000) + "."@ + seq![digit_char(v / 100), digit_char(v / 10), digit_char(v)]
}

/// Each fractional meter with its value written as a decimal fraction.
pub open spec fn written_fractions(fractions: Seq<(Seq<char>, u64)>) -> Seq<
    (Seq<char>, Seq<char>),
> {
    Seq::new(fractions.len(), |i: int| (fractions[i].0, thousandths(fractions[i].1 as nat)))
}

/// Writes a number of thousandths as a decimal fraction.
pub fn thousandths_string(v: u64) -> (s: String)
    ensures
        s@ == thousandths(v as nat),
{
    let mut s = String::new();
    push_decimal(&mut s, v / 1000);
    s.append(".");
    s.append(digit_str((v / 100) % 10));
    s.append(digit_str((v / 10) % 10));
    s.append(digit_str(v % 10));
    assert(s@ =~= thousandths(v as nat));
    s
}

/// Each integer meter with its value written in decimal.
pub open spec fn written(integers: Seq<(Seq<char>, u64)>) -> Seq<(Seq<char>, Seq<char>)> {
    Seq::new(integers.len(), |i: int| (integers[i].0, decimal(integers[i].1 as nat)))
}

/// The stats of a response: the integer meters first, then the fractional
/// ones.
pub open spec fn stats(integers: Seq<(Seq<char>, u64)>, fractions: Seq<(Seq<char>, u64)>) -> Seq<
    (Seq<char>, Seq<char>),
> {
    written(integers) + written_fractions(fractions)
}

/// One line of the plain form: the key, a space, the value and a line feed.
pub open spec fn plain_line(stat: (Seq<char>, Seq<char>)) -> Seq<char> {
    stat.0 + " "@ + stat.1 + "\n"@
}

/// The plain form: one line for each stat, in order.
pub open spec fn plain_text(stats: Seq<(Seq<char>, Seq<char>)>) -> Seq<char>
    decreases stats.len(),
{
    if stats.len() == 0 {
        Seq::<char>::empty()
    } else {
        plain_text(stats.drop_last()) + plain_line(stats.last())
    }
}

/// One member of the JSON form: the key in double quotes, a colon and the
/// value.
pub open spec fn json_member(stat: (Seq<char>, Seq<char>)) -> Seq<char> {
    "\""@ + stat.0 + "\":"@ + stat.1
}

/// The members of the JSON form, in order, with a comma between each two.
pub open spec fn json_members(stats: Seq<(Seq<char>, Seq<char>)>) -> Seq<char>
    decreases stats.len(),
{
    if stats.len() == 0 {
        Seq::<char>::empty()
    } else if stats.len() == 1 {
        json_member(stats.last())
    } else {
        json_members(stats.drop_last()) + ","@ + json_member(stats.last())
    }
}

/// The JSON form: one object on a single line, `{}` when there is no stat.
pub open spec fn json_text(stats: Seq<(Seq<char>, Seq<char>)>) -> Seq<char> {
    "{"@ + json_members(stats) + "}"@
}

/// Whether a request for `url` is answered in the plain form.
pub open spec fn wants_plain(url: Seq<char>) -> bool {
    url == "/vars"@ || url == "/metrics"@
}

/// The body of the response to a request for `url`.
pub open spec fn response_text(url: Seq<char>, stats: Seq<(Seq<char>, Seq<char>)>) -> Seq<char> {
    if wants_plain(url) {
        plain_text(stats)
    } else {
        json_text(stats)
    }
}

/// Writes the plain form of `stats`.
pub fn render_plain(stats: &Vec<(String, String)>) -> (body: String)
    ensures
        body@ == plain_text(text_pairs(stats@)),
{
    let ghost all = text_pairs(stats@);
    let mut body = String::new();
    let mut i: usize = 0;
    assert(all.take(0) =~= Seq::empty());
    while i < stats.len()
        invariant
            i <= stats.len(),
            all == text_pairs(stats@),
            body@ == plain_text(all.take(i as int)),
        decreases stats.len() - i,
    {
        let ghost before = body@;
        body.append(stats[i].0.as_str());
        body.append(" ");
        body.append(stats[i].1.as_str());
        body.append("\n");
        proof {
            let t = all.take(i + 1);
            assert(t.drop_last() =~= all.take(i as int));
            assert(t.last() == all[i as int]);
            assert(body@ =~= before + plain_line(all[i as int]));
        }
        i += 1;
    }
    assert(all.take(all.len() as int) =~= all);
    body
}

/// Writes the JSON form of `stats`.
pub fn render_json(stats: &Vec<(String, String)>) -> (body: String)
    ensures
        body@ == json_text(text_pairs(stats@)),
{
    let ghost all = text_pairs(stats@);
    let mut body = String::from_str("{");
    let mut i: usize = 0;
    assert(all.take(0) =~= Seq::empty());
    assert(body@ =~= "{"@ + json_members(all.take(0)));
    while i < stats.len()
        invariant
            i <= stats.len(),
            all == text_pairs(stats@),
            body@ == "{"@ + json_members(all.take(i as int)),
        decreases stats.len() - i,
    {
        let ghost before = body@;
        if i > 0 {
            body.append(",");
        }
        body.append("\"");
        body.append(stats[i].0.as_str());
        body.append("\":");
        body.append(stats[i].1.as_str());
        proof {
            let t = all.take(i + 1);
            assert(t.drop_last() =~= all.take(i as int));
            assert(t.last() == all[i as int]);
            if i > 0 {
                assert(body@ =~= before + ","@ + json_member(all[i as int]));
            } else {
                assert(body@ =~= before + json_member(all[i as int]));
            }
            assert(body@ =~= "{"@ + json_members(t));
        }
        i += 1;
    }
    assert(all.take(all.len() as int) =~= all);
    body.append("}");
    body
}

/// The stats of a response: each integer meter written in decimal, then
/// each fractional meter written as a decimal fraction.
pub fn collect_stats(integers: &Vec<(String, u64)>, fractions: &Vec<(String, u64)>) -> (all: Vec<
    (String, String),
>)
    ensures
        text_pairs(all@) == stats(integer_pairs(integers@), integer_pairs(fractions@)),
{
    let ghost first = written(integer_pairs(integers@));
    let ghost second = written_fractions(integer_pairs(fractions@));
    let mut all: Vec<(String, String)> = Vec::new();
    let mut i: usize = 0;
    while i < integers.len()
        invariant
            i <= integers.len(),
            first == written(integer_pairs(integers@)),
            text_pairs(all@) == first.take(i as int),
        decreases integers.len() - i,
    {
        let ghost before = text_pairs(all@);
        all.push((integers[i].0.clone(), decimal_string(integers[i].1)));
        assert(text_pairs(all@) =~= before.push(first[i as int]));
        assert(text_pairs(all@) =~= first.take(i + 1));
        i += 1;
    }
    assert(first.take(integers@.len() as int) =~= first);
    let mut j: usize = 0;
    while j < fractions.len()
        invariant
            j <= fractions.len(),
            second == written_fractions(integer_pairs(fractions@)),
            text_pairs(all@) == first + second.take(j as int),
        decreases fractions.len() - j,
    {
        let ghost before = text_pairs(all@);
        all.push((fractions[j].0.clone(), thousandths_string(fractions[j].1)));
        assert(text_pairs(all@) =~= before.push(second[j as int]));
        assert(text_pairs(all@) =~= first + second.take(j + 1));
        j += 1;
    }
    assert(second.take(fractions@.len() as int) =~= second);
    all
}

/// The body of the response to a request for `url`, given the meters to
/// show: the plain form for `/vars` and `/metrics`, the JSON form for any
/// other path.
pub fn response(url: &String, integers: &Vec<(String, u64)>, fractions: &Vec<(String, u64)>) -> (body:
    String)
    ensures
        body@ == response_text(url@, stats(integer_pairs(integers@), integer_pairs(fractions@))),
{
    let all = collect_stats(integers, fractions);
    let vars = String::from_str("/vars");
    let metrics = String::from_str("/metrics");
    if *url == vars || *url == metrics {
        render_plain(&all)
    } else {
        render_json(&all)
    }
}

/// Says when the scrape endpoint is to be served next: once in every tenth
/// of a second of counter time.
pub struct ScrapeTimer {
    pub next: u64,
    pub interval: u64,
}

impl ScrapeTimer {
    /// A timer that first comes due a tenth of a second after `now`, for a
    /// counter that counts `frequency` times a second.
    pub fn start(now: u64, frequency: u64) -> (t: Self)
        ensures
            t.interval == frequency / 10,
            t.next == saturating_sum(now, (frequency / 10) as u64),
    {
        let interval = frequency / 10;
        ScrapeTimer { next: now.saturating_add(interval), interval }
    }

    /// Whether the endpoint is to be served now. When it is, the timer
    /// moves on by one interval.
    pub fn due(&mut self, now: u64) -> (due: bool)
        ensures
            due == (now > old(self).next),
            final(self).interval == old(self).interval,
            due ==> final(self).next == saturating_sum(old(self).next, old(self).interval),
            !due ==> final(self).next == old(self).next,
    {
        if now > self.next {
            self.next = self.next.saturating_add(self.interval);
            true
        } else {
            false
        }
    }
}

} // verus!
