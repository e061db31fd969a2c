//! The texts that the player shows.
use vstd::prelude::*;
use vstd::string::*;

verus! {

/// Nanoseconds in a second.
pub const SECOND: u128 = 1_000_000_000;

/// How many characters of the directory are shown.
pub const DIRECTORY_CHARS: usize = 40;

pub open spec fn digit(d: nat) -> char {
    if d == 0 {
        '0'
    } else if d == 1 {
        '1'
    } else if d == 2 {
        '2'
    } else if d == 3 {
        '3'
    } else if d == 4 {
        '4'
    } else if d == 5 {
        '5'
    } else if d == 6 {
        '6'
    } else if d == 7 {
        '7'
    } else if d == 8 {
        '8'
    } else {
        '9'
    }
}

/// `n` in decimal, without leading zeros.
pub open spec fn decimal(n: nat) -> Seq<char>
    decreases n,
{
    if n < 10 {
        seq![digit(n)]
    } else {
        decimal(n / 10).push(digit(n % 10))
    }
}

/// `n` in decimal, with a leading zero where it has a single digit.
pub open spec fn two_places(n: nat) -> Seq<char> {
    if n < 10 {
        seq!['0'] + decimal(n)
    } else {
        decimal(n)
    }
}

pub open spec fn whole_seconds(span: u128) -> nat {
    (span / SECOND) as nat
}

/// A span in nanoseconds as minutes and seconds.
pub open spec fn clock(span: u128) -> Seq<char> {
    two_places(whole_seconds(span) / 60) + seq![':'] + two_places(whole_seconds(span) % 60)
}

/// The position and the length, as far as they are known.
pub open spec fn progress(current: Option<u128>, total: Option<u128>) -> Seq<char> {
    match (current, total) {
        (Some(c), Some(t)) => clock(c) + " / "@ + clock(t),
        (Some(c), None) => clock(c) + " / --:--"@,
        _ => "00:00 / --:--"@,
    }
}

fn push_digit(out: &mut String, d: u128)
    requires
        d < 10,
    ensures
        final(out)@ == old(out)@.push(digit(d as nat)),
{
    proof {
        reveal_strlit("0");
        reveal_strlit("1");
        reveal_strlit("2");
        reveal_strlit("3");
        reveal_strlit("4");
        reveal_strlit("5");
        reveal_strlit("6");
        reveal_strlit("7");
        reveal_strlit("8");
        reveal_strlit("9");
    }
    let text: &str = if d == 0 {
        "0"
    } else if d == 1 {
        "1"
    } else if d == 2 {
        "2"
    } else if d == 3 {
        "3"
    } else if d == 4 {
        "4"
    } else if d == 5 {
        "5"
    } else if d == 6 {
        "6"
    } else if d == 7 {
        "7"
    } else if d == 8 {
        "8"
    } else {
        "9"
    };
    assert(text@ =~= seq![digit(d as nat)]);
    assert(out@ + seq![digit(d as nat)] =~= out@.push(digit(d as nat)));
    out.append(text);
}

fn push_decimal(out: &mut String, n: u128)
    ensures
        final(out)@ == old(out)@ + decimal(n as nat),
    decreases n,
{
    if n >= 10 {
        push_decimal(out, n / 10);
    }
    push_digit(out, n % 10);
    assert(out@ =~= old(out)@ + decimal(n as nat));
}

fn push_two_places(out: &mut String, n: u128)
    ensures
        final(out)@ == old(out)@ + two_places(n as nat),
{
    if n < 10 {
        push_digit(out, 0);
    }
    push_decimal(out, n);
    assert(out@ =~= old(out)@ + two_places(n as nat));
}

fn push_clock(out: &mut String, span: u128)
    ensures
        final(out)@ == old(out)@ + clock(span),
{
    proof {
        reveal_strlit(":");
        assert(":"@ =~= seq![':']);
    }
    let seconds: u128 = span / SECOND;
    push_two_places(out, seconds / 60);
    out.append(":");
    push_two_places(out, seconds % 60);
    assert(out@ =~= old(out)@ + clock(span));
}

/// A span in nanoseconds as minutes and seconds, each of at least two digits.
pub fn format_duration(span: u128) -> (res: String)
    ensures
        res@ == clock(span),
        number(res@.take(res@.len() - 3)) == span / 60_000_000_000,
        number(res@.skip(res@.len() - 2)) == span / 1_000_000_000 % 60,
{
    proof {
        law_clock_reads_back(span);
    }
    let mut out = String::new();
    push_clock(&mut out, span);
    assert(out@ =~= clock(span));
    out
}

/// The line under the transport buttons: where the playback is, and how long the file is.
pub fn time_text(current: Option<u128>, total: Option<u128>) -> (res: String)
    ensures
        res@ == progress(current, total),
        current is Some && total is Some ==> res@ == clock(current->0) + " / "@ + clock(total->0),
        current is Some && total is None ==> res@ == clock(current->0) + " / --:--"@,
        current is None ==> res@ == "00:00 / --:--"@,
{
    match (current, total) {
        (Some(c), Some(t)) => {
            let mut out = format_duration(c);
            out.append(" / ");
            push_clock(&mut out, t);
            out
        },
        (Some(c), None) => {
            let mut out = format_duration(c);
            out.append(" / --:--");
            out
        },
        _ => "00:00 / --:--".to_owned(),
    }
}

/// `prefix` followed by `n` in decimal.
pub fn numbered(prefix: &str, n: usize) -> (res: String)
    ensures
        res@ == prefix@ + decimal(n as nat),
{
    let mut out = prefix.to_owned();
    push_decimal(&mut out, n as u128);
    out
}

/// `prefix` followed by `rest`.
pub fn joined(prefix: &str, rest: &str) -> (res: String)
    ensures
        res@ == prefix@ + rest@,
{
    let mut out = prefix.to_owned();
    out.append(rest);
    out
}

pub open spec fn shortened(text: Seq<char>) -> Seq<char> {
    if text.len() <= DIRECTORY_CHARS {
        text
    } else {
        text.take(DIRECTORY_CHARS as int)
    }
}

/// The start of a directory's path, as it is shown above the list of files.
pub fn directory_label(text: &str) -> (res: String)
    ensures
        res@ == shortened(text@),
        res@ == if text@.len() <= 40 {
            text@
        } else {
            text@.take(40)
        },
{
    if text.unicode_len() <= DIRECTORY_CHARS {
        text.to_owned()
    } else {
        text.substring_char(0, DIRECTORY_CHARS).to_owned()
    }
}

proof fn lemma_digit_distinct(a: nat, b: nat)
    requires
        a < 10,
        b < 10,
        digit(a) == digit(b),
    ensures
        a == b,
{
}

proof fn lemma_decimal_distinct(a: nat, b: nat)
    requires
        decimal(a) == decimal(b),
    ensures
        a == b,
    decreases a,
{
    lemma_decimal_len(a);
    lemma_decimal_len(b);
    if a < 10 {
        assert(decimal(a)[0] == digit(a));
        assert(decimal(b)[0] == digit(b));
        lemma_digit_distinct(a, b);
    } else {
        assert(decimal(a).last() == digit(a % 10));
        assert(decimal(b).last() == digit(b % 10));
        lemma_digit_distinct(a % 10, b % 10);
        assert(decimal(a / 10) =~= decimal(a).drop_last());
        assert(decimal(b / 10) =~= decimal(b).drop_last());
        lemma_decimal_distinct(a / 10, b / 10);
    }
}

proof fn lemma_decimal_len(n: nat)
    ensures
        n < 10 ==> decimal(n).len() == 1,
        n >= 10 ==> decimal(n).len() >= 2,
        10 <= n < 100 ==> decimal(n).len() == 2,
    decreases n,
{
    if n >= 10 {
        lemma_decimal_len(n / 10);
    }
}

proof fn lemma_two_places_distinct(a: nat, b: nat)
    requires
        two_places(a) == two_places(b),
    ensures
        a == b,
{
    lemma_decimal_len(a);
    lemma_decimal_len(b);
    if a < 10 && b < 10 {
        assert(two_places(a)[1] == digit(a));
        assert(two_places(b)[1] == digit(b));
        lemma_digit_distinct(a, b);
    } else if a >= 10 && b >= 10 {
        lemma_decimal_distinct(a, b);
    } else if a < 10 {
        lemma_starts_nonzero(b);
        assert(two_places(a)[0] == '0');
    } else {
        lemma_starts_nonzero(a);
        assert(two_places(b)[0] == '0');
    }
}

proof fn lemma_starts_nonzero(n: nat)
    requires
        n > 0,
    ensures
        decimal(n).len() > 0,
        decimal(n)[0] != '0',
    decreases n,
{
    if n >= 10 {
        lemma_starts_nonzero(n / 10);
        assert(decimal(n)[0] == decimal(n / 10)[0]);
    } else if digit(n) == '0' {
        lemma_digit_distinct(n, 0);
    }
}

/// A clock ends in a colon and the two digits of the seconds, after at least two of the minutes.
pub proof fn law_clock_shape(span: u128)
    ensures
        clock(span).len() >= 5,
        clock(span)[clock(span).len() - 3] == ':',
        clock(span).take(clock(span).len() - 3) == two_places(whole_seconds(span) / 60),
        clock(span).skip(clock(span).len() - 2) == two_places(whole_seconds(span) % 60),
{
    let minutes = whole_seconds(span) / 60;
    let seconds = whole_seconds(span) % 60;
    lemma_decimal_len(minutes);
    lemma_decimal_len(seconds);
    assert(clock(span).take(clock(span).len() - 3) =~= two_places(minutes));
    assert(clock(span).skip(clock(span).len() - 2) =~= two_places(seconds));
}

/// Two spans show the same clock exactly where they have the same number of whole seconds.
pub proof fn law_clock_tells_seconds(a: u128, b: u128)
    ensures
        clock(a) == clock(b) <==> whole_seconds(a) == whole_seconds(b),
{
    if clock(a) == clock(b) {
        law_clock_shape(a);
        law_clock_shape(b);
        lemma_two_places_distinct(whole_seconds(a) / 60, whole_seconds(b) / 60);
        lemma_two_places_distinct(whole_seconds(a) % 60, whole_seconds(b) % 60);
    }
}

/// The number that `digits` spells, read from the left with ten for each further place.
pub open spec fn number(digits: Seq<char>) -> int
    decreases digits.len(),
{
    if digits.len() == 0 {
        0
    } else {
        10 * number(digits.drop_last()) + (digits.last() as u32 - '0' as u32)
    }
}

/// Nothing but the ten decimal digits.
pub open spec fn digits_only(text: Seq<char>) -> bool {
    forall|i: int| 0 <= i < text.len() ==> '0' <= #[trigger] text[i] && text[i] <= '9'
}

/// A number in decimal reads back as that number. It is made of digits, and starts with a zero
/// only where it is zero.
pub proof fn law_decimal_reads_back(n: nat)
    ensures
        number(decimal(n)) == n,
        digits_only(decimal(n)),
        decimal(n).len() > 0,
        decimal(n).len() > 1 ==> decimal(n)[0] != '0',
        n < 10 ==> decimal(n).len() == 1,
        10 <= n < 100 ==> decimal(n).len() == 2,
    decreases n,
{
    lemma_decimal_len(n);
    if n > 0 {
        lemma_starts_nonzero(n);
    }
    if n < 10 {
        assert(decimal(n).drop_last() =~= Seq::<char>::empty());
        reveal_with_fuel(number, 2);
    } else {
        law_decimal_reads_back(n / 10);
        assert(decimal(n).drop_last() =~= decimal(n / 10));
        assert forall|i: int| 0 <= i < decimal(n).len() implies '0' <= #[trigger] decimal(n)[i]
            && decimal(n)[i] <= '9' by {
            if i < decimal(n / 10).len() {
                assert(decimal(n)[i] == decimal(n / 10)[i]);
            }
        }
    }
}

proof fn lemma_two_places_reads_back(n: nat)
    ensures
        number(two_places(n)) == n,
        digits_only(two_places(n)),
        two_places(n).len() >= 2,
        n < 100 ==> two_places(n).len() == 2,
        two_places(n).len() > 2 ==> two_places(n)[0] != '0',
{
    law_decimal_reads_back(n);
    lemma_decimal_len(n);
    if n < 10 {
        let text = two_places(n);
        assert(text.drop_last() =~= seq!['0']);
        assert(text.drop_last().drop_last() =~= Seq::<char>::empty());
        assert(decimal(n).drop_last() =~= Seq::<char>::empty());
        reveal_with_fuel(number, 3);
    }
}

/// A clock reads back as the minutes of the span before its colon and the seconds of the minute
/// behind it. The seconds have two digits; the minutes have more than two only where they need
/// them.
pub proof fn law_clock_reads_back(span: u128)
    ensures
        clock(span).len() >= 5,
        clock(span)[clock(span).len() - 3] == ':',
        number(clock(span).take(clock(span).len() - 3)) == span / 60_000_000_000,
        number(clock(span).skip(clock(span).len() - 2)) == span / 1_000_000_000 % 60,
        digits_only(clock(span).take(clock(span).len() - 3)),
        digits_only(clock(span).skip(clock(span).len() - 2)),
        clock(span).len() > 5 ==> clock(span)[0] != '0',
{
    law_clock_shape(span);
    let minutes = whole_seconds(span) / 60;
    lemma_two_places_reads_back(minutes);
    lemma_two_places_reads_back(whole_seconds(span) % 60);
    assert(clock(span).take(clock(span).len() - 3)[0] == clock(span)[0]);
}

/// The minutes and seconds that a clock shows add up to the whole seconds of the span.
pub proof fn law_clock_counts_seconds(span: u128)
    ensures
        60 * number(clock(span).take(clock(span).len() - 3)) + number(
            clock(span).skip(clock(span).len() - 2),
        ) == span / 1_000_000_000,
{
    law_clock_reads_back(span);
}

/// Where position and length are known, the text is the clock of the position, a slash between
/// two spaces, and the clock of the length.
pub proof fn law_progress_shows_both(position: u128, length: u128)
    ensures
        ({
            let text = progress(Some(position), Some(length));
            let first = clock(position).len() as int;
            let second = clock(length).len();
            &&& text.len() == first + 3 + second
            &&& text.take(first) == clock(position)
            &&& text[first] == ' '
            &&& text[first + 1] == '/'
            &&& text[first + 2] == ' '
            &&& text.skip(first + 3) == clock(length)
        }),
{
    reveal_strlit(" / ");
    let text = progress(Some(position), Some(length));
    let first = clock(position).len() as int;
    assert(text.take(first) =~= clock(position));
    assert(text.skip(first + 3) =~= clock(length));
}

/// Where only the position is known, dashes stand for the length; where the position is not known
/// the text is the same whatever the length is.
pub proof fn law_progress_of_unknown(position: u128, length: Option<u128>)
    ensures
        progress(Some(position), None).len() == clock(position).len() + 8,
        progress(Some(position), None).take(clock(position).len() as int) == clock(position),
        progress(Some(position), None).skip(clock(position).len() as int) == " / --:--"@,
        progress(None, length) == "00:00 / --:--"@,
{
    reveal_strlit(" / --:--");
    let text = progress(Some(position), None);
    assert(text.take(clock(position).len() as int) =~= clock(position));
    assert(text.skip(clock(position).len() as int) =~= " / --:--"@);
}

/// Of a directory the label shows the first characters: all of up to forty, and else forty.
pub proof fn law_label_starts_the_path(text: Seq<char>)
    ensures
        shortened(text).len() <= 40,
        shortened(text).len() <= text.len(),
        text.len() >= 40 ==> shortened(text).len() == 40,
        text.len() <= 40 ==> shortened(text) == text,
        shortened(text) == text.take(shortened(text).len() as int),
{
    assert(text =~= text.take(text.len() as int));
}

} // verus!
