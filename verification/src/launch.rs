//! Building the resource locator that a firing opens: either the
//! event's own link, or a fallback URL that embeds the URL-encoded event
//! name and the fire time.
use vstd::prelude::*;

verus! {

/// What `urlencoding::encode` returns for a string: a function of the
/// characters alone.
pub uninterp spec fn url_encoded(s: Seq<char>) -> Seq<char>;

/// Relies on urlencoding::encode: percent-encodes every byte except
/// ASCII alphanumerics and '-', '_', '.', '~'; the result depends on the
/// input characters alone, and an empty input gives an empty result.
#[verifier::external_body]
fn encode_component(s: &str) -> (r: String)
    ensures
        r@ == url_encoded(s@),
        s@.len() == 0 ==> r@.len() == 0,
{
    urlencoding::encode(s).into_owned()
}

/// The character of a decimal digit.
pub open spec fn digit_char(d: int) -> char {
    seq!['0', '1', '2', '3', '4', '5', '6', '7', '8', '9'][d]
}

/// The two-digit, zero-padded text of `n` (for `n` below 100).
pub open spec fn two_digit_chars(n: int) -> Seq<char> {
    seq![digit_char(n / 10), digit_char(n % 10)]
}

/// The text of an hour: unpadded, one digit below ten, two otherwise.
pub open spec fn hour_chars(h: int) -> Seq<char> {
    if h < 10 {
        seq![digit_char(h)]
    } else {
        two_digit_chars(h)
    }
}

/// The "H:MM" text of a time given in minutes since midnight: the hour
/// unpadded, a colon, the minute zero-padded to two digits.
pub open spec fn clock_chars(m: int) -> Seq<char> {
    hour_chars(m / 60) + seq![':'] + two_digit_chars(m % 60)
}

/// The one-character text of the digit `d`.
fn digit_str(d: u32) -> (r: &'static str)
    requires
        d < 10,
    ensures
        r@ == seq![digit_char(d as int)],
{
    proof {
        reveal_strlit("0");
        reveal_strlit("1");
        reveal_strlit("2");
        reveal_strlit("3");
        reveal_strlit("4");
        reveal_strlit("5");
        reveal_strlit("6");
        reveal_strlit("7");
        reveal_strlit("8");
        reveal_strlit("9");
    }
    let r: &'static str = if d == 0 {
        "0"
    } else if d == 1 {
        "1"
    } else if d == 2 {
        "2"
    } else if d == 3 {
        "3"
    } else if d == 4 {
        "4"
    } else if d == 5 {
        "5"
    } else if d == 6 {
        "6"
    } else if d == 7 {
        "7"
    } else if d == 8 {
        "8"
    } else {
        "9"
    };
    proof {
        assert(r@ =~= seq![digit_char(d as int)]);
    }
    r
}

/// Appends the digit character of `d` to `out`.
fn push_digit(out: &mut String, d: u32)
    requires
        d < 10,
    ensures
        final(out)@ == old(out)@.push(digit_char(d as int)),
{
    out.append(digit_str(d));
    proof {
        assert(final(out)@ =~= old(out)@.push(digit_char(d as int)));
    }
}

/// Renders a time of day, given in minutes since midnight, as "H:MM":
/// the hour unpadded (as the launcher has always shown it), the minute
/// zero-padded.
pub fn clock_string(minutes: u32) -> (r: String)
    requires
        minutes < 1440,
    ensures
        r@ == clock_chars(minutes as int),
{
    let h = minutes / 60;
    let m = minutes % 60;
    let mut r = String::new();
    if h >= 10 {
        push_digit(&mut r, h / 10);
    }
    push_digit(&mut r, h % 10);
    proof {
        reveal_strlit(":");
    }
    r.append(":");
    proof {
        assert(":"@ =~= seq![':']);
    }
    push_digit(&mut r, m / 10);
    push_digit(&mut r, m % 10);
    proof {
        if h < 10 {
            assert(hour_chars(h as int) =~= seq![digit_char(h as int)]);
            assert(digit_char((h % 10) as int) == digit_char(h as int));
        } else {
            assert(hour_chars(h as int) =~= seq![
                digit_char((h / 10) as int),
                digit_char((h % 10) as int),
            ]);
        }
        assert(r@ =~= clock_chars(minutes as int));
    }
    r
}

/// The fallback locator for an event without a link of its own: a fixed
/// endpoint with the URL-encoded event name and the "H:MM" fire time.
pub open spec fn fallback_url_chars(name: Seq<char>, minutes: int) -> Seq<char> {
    "https://auto-class-launcher-alarm.vercel.app/?className="@ + url_encoded(name) + "&timing="@
        + clock_chars(minutes)
}

/// Builds the fallback locator for an event name and a fire time given
/// in minutes since midnight.
pub fn build_fallback_url(name: &str, minutes: u32) -> (r: String)
    requires
        minutes < 1440,
    ensures
        r@ == fallback_url_chars(name@, minutes as int),
{
    let mut r = String::from_str("https://auto-class-launcher-alarm.vercel.app/?className=");
    let encoded = encode_component(name);
    r.append(encoded.as_str());
    r.append("&timing=");
    let clock = clock_string(minutes);
    r.append(clock.as_str());
    proof {
        assert(r@ =~= fallback_url_chars(name@, minutes as int));
    }
    r
}

} // verus!
