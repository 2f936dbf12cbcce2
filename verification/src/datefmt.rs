use vstd::prelude::*;

verus! {

use vstd::string::StrSliceExecFns;
use vstd::string::StringExecFns;
use crate::csv::push_char;

/// The characters of `source` from `start` (inclusive) to `end` (exclusive),
/// collected into a string.
pub fn extract(source: &Vec<char>, start: usize, end: usize) -> (r: String)
    requires
        start <= end,
        end <= source@.len(),
    ensures
        r@ == source@.subrange(start as int, end as int),
{
    let mut r = String::new();
    let mut i: usize = start;
    proof {
        assert(source@.subrange(start as int, start as int) =~= Seq::<char>::empty());
    }
    while i < end
        invariant
            start <= i <= end,
            end <= source@.len(),
            r@ == source@.subrange(start as int, i as int),
        decreases end - i,
    {
        push_char(&mut r, source[i]);
        proof {
            assert(source@.subrange(start as int, i + 1) =~= source@.subrange(
                start as int,
                i as int,
            ).push(source@[i as int]));
        }
        i = i + 1;
    }
    r
}

/// The characters of `s`, collected into a vector.
fn chars_of(s: &str) -> (r: Vec<char>)
    ensures
        r@ == s@,
{
    let n = s.unicode_len();
    let mut r: Vec<char> = Vec::new();
    let mut i: usize = 0;
    proof {
        assert(s@.take(0) =~= Seq::<char>::empty());
    }
    while i < n
        invariant
            i <= n,
            n == s@.len(),
            r@ == s@.take(i as int),
        decreases n - i,
    {
        let c = s.get_char(i);
        r.push(c);
        proof {
            assert(s@.take(i + 1) =~= s@.take(i as int).push(s@[i as int]));
        }
        i = i + 1;
    }
    proof {
        assert(s@.take(n as int) =~= s@);
    }
    r
}

/// A date such as `2025-07-19` and a time such as `13:00:00` or `13:00`
/// rearranged into one timestamp: year, month and day, a literal `T`, hour
/// and minute, then the seconds when the time carries them and `00` when it
/// does not.
pub open spec fn spec_date_format(date: Seq<char>, time: Seq<char>) -> Seq<char> {
    date.subrange(0, 4) + date.subrange(5, 7) + date.subrange(8, 10) + seq!['T'] + time.subrange(
        0,
        2,
    ) + time.subrange(3, 5) + if time.len() > 6 {
        time.subrange(6, 8)
    } else {
        seq!['0', '0']
    }
}

/// Format a date and a time as one timestamp. A shorter date or time is
/// malformed input on which the collaborator that calls this is expected to
/// give up, so it is ruled out here.
pub fn date_format(date: &str, time: &str) -> (r: String)
    requires
        date@.len() >= 10,
        time@.len() >= 5,
        time@.len() > 6 ==> time@.len() >= 8,
    ensures
        r@ == spec_date_format(date@, time@),
{
    let date_chars: Vec<char> = chars_of(date);
    let time_chars: Vec<char> = chars_of(time);

    let seconds = if time_chars.len() > 6 {
        extract(&time_chars, 6, 8)
    } else {
        let z = "00".to_owned();
        proof {
            reveal_strlit("00");
            assert(z@ =~= seq!['0', '0']);
        }
        z
    };

    let mut r = extract(&date_chars, 0, 4);
    let part = extract(&date_chars, 5, 7);
    r.append(part.as_str());
    let part = extract(&date_chars, 8, 10);
    r.append(part.as_str());
    push_char(&mut r, 'T');
    let part = extract(&time_chars, 0, 2);
    r.append(part.as_str());
    let part = extract(&time_chars, 3, 5);
    r.append(part.as_str());
    r.append(seconds.as_str());
    proof {
        assert(r@ =~= spec_date_format(date@, time@));
    }
    r
}

} // verus!
