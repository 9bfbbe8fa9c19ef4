use vstd::prelude::*;
use vstd::string::{StringExecFns, StringSliceAdditionalSpecFns};

verus! {

/// A football match, ready to show.
#[derive(Debug, Clone, Default)]
pub struct Match {
    pub home_team: String,
    pub home_crest_url: String,
    pub away_team: String,
    pub away_crest_url: String,
    pub datetime_string: String,
    pub score: Option<String>,
    pub competition: String,
}

/// The status of one tube line.
#[derive(Debug, Clone, Default)]
pub struct LineStatus {
    pub name: String,
    pub status: String,
    pub reason: Option<String>,
}

/// Current weather and the coming days' forecast.
#[derive(Debug, Clone, Default)]
pub struct Weather {
    pub current_temp: i32,
    pub current_description: String,
    pub icon: String,
    pub forecast: Vec<DayForecast>,
}

/// The forecast for one day.
#[derive(Debug, Clone)]
pub struct DayForecast {
    pub day: String,
    pub high: i32,
    pub low: i32,
    pub description: String,
    pub icon: String,
}

/// Description and icon file of a WMO weather code.
pub open spec fn weather_info(code: u8) -> (&'static str, &'static str) {
    if code == 0 {
        ("Clear sky", "clear-day.svg")
    } else if code == 1 {
        ("Mainly clear", "mostly-clear-day.svg")
    } else if code == 2 {
        ("Partly cloudy", "partly-cloudy-day.svg")
    } else if code == 3 {
        ("Overcast", "cloudy.svg")
    } else if (4 <= code && code <= 9) || (30 <= code && code <= 35) {
        ("Dust or haze", "sandstorm.svg")
    } else if (10 <= code && code <= 12) || (40 <= code && code <= 49) {
        ("Fog", "fog.svg")
    } else if 50 <= code && code <= 55 {
        ("Drizzle", "drizzle.svg")
    } else if 56 <= code && code <= 57 {
        ("Freezing drizzle", "freezingdrizzle.svg")
    } else if (60 <= code && code <= 61) || code == 80 {
        ("Light rain", "rain.svg")
    } else if (62 <= code && code <= 63) || code == 81 {
        ("Moderate rain", "rain.svg")
    } else if (64 <= code && code <= 65) || code == 82 {
        ("Heavy rain", "rain.svg")
    } else if 66 <= code && code <= 67 {
        ("Freezing rain", "freezingrain.svg")
    } else if (70 <= code && code <= 71) || code == 85 {
        ("Light snow", "snow.svg")
    } else if (72 <= code && code <= 73) || code == 86 {
        ("Moderate snow", "snow.svg")
    } else if 74 <= code && code <= 75 {
        ("Heavy snow", "snow.svg")
    } else if code == 77 || (36 <= code && code <= 39) {
        ("Blowing snow", "blowingsnow.svg")
    } else if (68 <= code && code <= 69) || (83 <= code && code <= 84) || code == 79 || (87 <= code && code <= 88) {
        ("Sleet", "sleet.svg")
    } else if 95 <= code && code <= 96 {
        ("Thunderstorm", "thunderstorm.svg")
    } else if code == 99 {
        ("Heavy thunderstorm", "thunderstorm-hail.svg")
    } else if code == 19 {
        ("Tornado", "tornado.svg")
    } else {
        ("Unknown", "unknown.svg")
    }
}

/// The description and icon file of a WMO weather code; unknown codes give
/// `("Unknown", "unknown.svg")`.
pub fn get_weather_info(code: u8) -> (r: (&'static str, &'static str))
    ensures
        r == weather_info(code),
{
    if code == 0 {
        ("Clear sky", "clear-day.svg")
    } else if code == 1 {
        ("Mainly clear", "mostly-clear-day.svg")
    } else if code == 2 {
        ("Partly cloudy", "partly-cloudy-day.svg")
    } else if code == 3 {
        ("Overcast", "cloudy.svg")
    } else if (4 <= code && code <= 9) || (30 <= code && code <= 35) {
        ("Dust or haze", "sandstorm.svg")
    } else if (10 <= code && code <= 12) || (40 <= code && code <= 49) {
        ("Fog", "fog.svg")
    } else if 50 <= code && code <= 55 {
        ("Drizzle", "drizzle.svg")
    } else if 56 <= code && code <= 57 {
        ("Freezing drizzle", "freezingdrizzle.svg")
    } else if (60 <= code && code <= 61) || code == 80 {
        ("Light rain", "rain.svg")
    } else if (62 <= code && code <= 63) || code == 81 {
        ("Moderate rain", "rain.svg")
    } else if (64 <= code && code <= 65) || code == 82 {
        ("Heavy rain", "rain.svg")
    } else if 66 <= code && code <= 67 {
        ("Freezing rain", "freezingrain.svg")
    } else if (70 <= code && code <= 71) || code == 85 {
        ("Light snow", "snow.svg")
    } else if (72 <= code && code <= 73) || code == 86 {
        ("Moderate snow", "snow.svg")
    } else if 74 <= code && code <= 75 {
        ("Heavy snow", "snow.svg")
    } else if code == 77 || (36 <= code && code <= 39) {
        ("Blowing snow", "blowingsnow.svg")
    } else if (68 <= code && code <= 69) || (83 <= code && code <= 84) || code == 79 || (87 <= code && code <= 88) {
        ("Sleet", "sleet.svg")
    } else if 95 <= code && code <= 96 {
        ("Thunderstorm", "thunderstorm.svg")
    } else if code == 99 {
        ("Heavy thunderstorm", "thunderstorm-hail.svg")
    } else if code == 19 {
        ("Tornado", "tornado.svg")
    } else {
        ("Unknown", "unknown.svg")
    }
}

/// Short name of a football-data competition code.
pub open spec fn competition_name(code: Seq<u8>) -> &'static str {
    if code == "PL".spec_bytes() {
        "PL"
    } else if code == "CL".spec_bytes() {
        "CL"
    } else if code == "ELC".spec_bytes() {
        "EFL"
    } else if code == "FAC".spec_bytes() {
        "FA"
    } else if code == "EFL".spec_bytes() {
        "LC"
    } else if code == "EC".spec_bytes() {
        "Euro"
    } else if code == "SA".spec_bytes() {
        "SA"
    } else if code == "BL1".spec_bytes() {
        "BL"
    } else if code == "FL1".spec_bytes() {
        "L1"
    } else if code == "PPL".spec_bytes() {
        "PPL"
    } else if code == "DED".spec_bytes() {
        "ERE"
    } else if code == "BSA".spec_bytes() {
        "BRA"
    } else if code == "WC".spec_bytes() {
        "WC"
    } else {
        "Cup"
    }
}

/// Whether two byte strings are equal.
fn bytes_eq(a: &[u8], b: &[u8]) -> (r: bool)
    ensures
        r == (a@ == b@),
{
    if a.len() != b.len() {
        return false;
    }
    let mut i: usize = 0;
    while i < a.len()
        invariant
            a@.len() == b@.len(),
            i <= a@.len(),
            forall|j: int| 0 <= j < i ==> a@[j] == b@[j],
        decreases a@.len() - i,
    {
        if a[i] != b[i] {
            return false;
        }
        i = i + 1;
    }
    proof {
        assert(a@ =~= b@);
    }
    true
}

/// The short name shown for a competition code; unknown codes are a "Cup".
pub fn competition_code_to_name(code: &str) -> (r: &'static str)
    ensures
        r == competition_name(code.spec_bytes()),
{
    let b = code.as_bytes();
    if bytes_eq(b, "PL".as_bytes()) {
        "PL"
    } else if bytes_eq(b, "CL".as_bytes()) {
        "CL"
    } else if bytes_eq(b, "ELC".as_bytes()) {
        "EFL"
    } else if bytes_eq(b, "FAC".as_bytes()) {
        "FA"
    } else if bytes_eq(b, "EFL".as_bytes()) {
        "LC"
    } else if bytes_eq(b, "EC".as_bytes()) {
        "Euro"
    } else if bytes_eq(b, "SA".as_bytes()) {
        "SA"
    } else if bytes_eq(b, "BL1".as_bytes()) {
        "BL"
    } else if bytes_eq(b, "FL1".as_bytes()) {
        "L1"
    } else if bytes_eq(b, "PPL".as_bytes()) {
        "PPL"
    } else if bytes_eq(b, "DED".as_bytes()) {
        "ERE"
    } else if bytes_eq(b, "BSA".as_bytes()) {
        "BRA"
    } else if bytes_eq(b, "WC".as_bytes()) {
        "WC"
    } else {
        "Cup"
    }
}

/// Index of the first `c` in `b` at or after `from`; `b.len()` where there is none.
pub open spec fn find_byte(b: Seq<u8>, c: u8, from: int) -> int
    decreases b.len() - from,
{
    if from < 0 || from >= b.len() {
        b.len() as int
    } else if b[from] == c {
        from
    } else {
        find_byte(b, c, from + 1)
    }
}

/// Whether `c` is an ASCII decimal digit.
pub open spec fn is_digit(c: u8) -> bool {
    48 <= c <= 57
}

/// The value of a string of decimal digits.
pub open spec fn digits_value(b: Seq<u8>) -> int
    decreases b.len(),
{
    if b.len() == 0 {
        0
    } else {
        digits_value(b.drop_last()) * 10 + (b.last() - 48)
    }
}

/// The digits of an unsigned decimal: the text without a leading `+`.
pub open spec fn unsigned_digits(b: Seq<u8>) -> Seq<u8> {
    if b.len() > 0 && b[0] == 43 {
        b.drop_first()
    } else {
        b
    }
}

/// An unsigned decimal as `str::parse` reads it: an optional `+`, then one or
/// more digits, with a value of at most `max`.
pub open spec fn parse_unsigned(b: Seq<u8>, max: int) -> Option<int> {
    let d = unsigned_digits(b);
    if d.len() > 0 && (forall|i: int| 0 <= i < d.len() ==> is_digit(#[trigger] d[i]))
        && digits_value(d) <= max {
        Some(digits_value(d))
    } else {
        None
    }
}

/// The decimal representation of `n`, without leading zeros.
pub open spec fn decimal(n: nat) -> Seq<char>
    decreases n,
{
    if n < 10 {
        seq![digit_char(n as int)]
    } else {
        decimal(n / 10) + seq![digit_char((n % 10) as int)]
    }
}

/// The decimal digit character of `d` (0 to 9).
pub open spec fn digit_char(d: int) -> char {
    if d == 0 {
        '0'
    } else if d == 1 {
        '1'
    } else if d == 2 {
        '2'
    } else if d == 3 {
        '3'
    } else if d == 4 {
        '4'
    } else if d == 5 {
        '5'
    } else if d == 6 {
        '6'
    } else if d == 7 {
        '7'
    } else if d == 8 {
        '8'
    } else {
        '9'
    }
}

/// Abbreviated name of month `m` (1 to 12).
pub open spec fn month_name(m: int) -> &'static str {
    if m == 1 {
        "Jan"
    } else if m == 2 {
        "Feb"
    } else if m == 3 {
        "Mar"
    } else if m == 4 {
        "Apr"
    } else if m == 5 {
        "May"
    } else if m == 6 {
        "Jun"
    } else if m == 7 {
        "Jul"
    } else if m == 8 {
        "Aug"
    } else if m == 9 {
        "Sep"
    } else if m == 10 {
        "Oct"
    } else if m == 11 {
        "Nov"
    } else {
        "Dec"
    }
}

/// A match date `YYYY-MM-DD[T...]` shown as month and day (`"Jan 20"`), or
/// `"???"` where the month or day does not parse or the month is not 1 to 12.
pub open spec fn match_date(s: Seq<u8>) -> Seq<char> {
    let d = s.take(find_byte(s, 84, 0));
    let i1 = find_byte(d, 45, 0);
    let i2 = find_byte(d, 45, i1 + 1);
    let i3 = find_byte(d, 45, i2 + 1);
    let month = parse_unsigned(d.subrange(i1 + 1, i2), usize::MAX as int);
    let day = parse_unsigned(d.subrange(i2 + 1, i3), u32::MAX as int);
    if i1 < d.len() && i2 < d.len() && month is Some && day is Some && 1 <= month->Some_0 <= 12 {
        month_name(month->Some_0)@ + seq![' '] + decimal(day->Some_0 as nat)
    } else {
        "???"@
    }
}

/// Where the search lands: at or after `from` and at most the length, on a `c`
/// where it is inside, past no `c`.
proof fn lemma_find_byte(b: Seq<u8>, c: u8, from: int)
    requires
        0 <= from,
    ensures
        from <= b.len() ==> from <= find_byte(b, c, from) <= b.len(),
        from > b.len() ==> find_byte(b, c, from) == b.len(),
        find_byte(b, c, from) < b.len() ==> b[find_byte(b, c, from)] == c,
    decreases b.len() - from,
{
    if from < b.len() && b[from] != c {
        lemma_find_byte(b, c, from + 1);
    }
}

/// A prefix of digits has a value no larger than the whole.
proof fn lemma_digits_value_prefix(b: Seq<u8>, k: int)
    requires
        0 <= k <= b.len(),
        forall|i: int| 0 <= i < b.len() ==> is_digit(#[trigger] b[i]),
    ensures
        0 <= digits_value(b.take(k)) <= digits_value(b),
    decreases b.len(),
{
    if b.len() > 0 {
        let init = b.drop_last();
        assert forall|i: int| 0 <= i < init.len() implies is_digit(#[trigger] init[i]) by {
            assert(init[i] == b[i]);
        }
        if k == b.len() {
            assert(b.take(k) =~= b);
            lemma_digits_value_prefix(init, init.len() as int);
            assert(init.take(init.len() as int) =~= init);
        } else {
            lemma_digits_value_prefix(init, k);
            assert(init.take(k) =~= b.take(k));
            lemma_digits_value_prefix(init, init.len() as int);
            assert(init.take(init.len() as int) =~= init);
        }
    }
}

/// Index of the first `c` in `b[from..end]`; `end` where there is none.
fn find_byte_in(b: &[u8], c: u8, from: usize, end: usize) -> (r: usize)
    requires
        from <= end <= b@.len(),
    ensures
        r as int == find_byte(b@.take(end as int), c, from as int),
        from <= r <= end,
{
    proof {
        lemma_find_byte(b@.take(end as int), c, from as int);
    }
    let ghost d = b@.take(end as int);
    let mut i = from;
    while i < end
        invariant
            from <= i <= end <= b@.len(),
            d == b@.take(end as int),
            find_byte(d, c, from as int) == find_byte(d, c, i as int),
        decreases end - i,
    {
        if b[i] == c {
            return i;
        }
        i = i + 1;
    }
    i
}

/// Reads `b[start..end]` as `str::parse` reads an unsigned integer no larger than
/// `max`.
fn parse_field(b: &[u8], start: usize, end: usize, max: u64) -> (r: Option<u64>)
    requires
        start <= end <= b@.len(),
    ensures
        r is Some <==> parse_unsigned(b@.subrange(start as int, end as int), max as int) is Some,
        r is Some ==> r->Some_0 == parse_unsigned(b@.subrange(start as int, end as int), max as int)->Some_0,
{
    let ghost f = b@.subrange(start as int, end as int);
    let s0: usize = if start < end && b[start] == 43 {
        start + 1
    } else {
        start
    };
    let ghost d = b@.subrange(s0 as int, end as int);
    proof {
        if start < end && b@[start as int] == 43 {
            assert(d =~= f.drop_first());
        } else {
            assert(d =~= f);
        }
    }
    if s0 == end {
        return None;
    }
    let mut v: u64 = 0;
    let mut i: usize = s0;
    while i < end
        invariant
            s0 <= i <= end <= b@.len(),
            d == b@.subrange(s0 as int, end as int),
            d == unsigned_digits(f),
            f == b@.subrange(start as int, end as int),
            forall|j: int| 0 <= j < i - s0 ==> is_digit(#[trigger] d[j]),
            v == digits_value(d.take(i - s0)),
            v <= max,
        decreases end - i,
    {
        let c = b[i];
        proof {
            assert(d[i - s0] == c);
        }
        if c < 48 || c > 57 {
            proof {
                assert(!is_digit(d[i - s0]));
                assert(!(forall|j: int| 0 <= j < d.len() ==> is_digit(#[trigger] d[j])));
            }
            return None;
        }
        proof {
            assert(d.take(i - s0 + 1).drop_last() =~= d.take(i - s0));
            assert(d.take(i - s0 + 1).last() == c);
            assert(digits_value(d.take(i - s0 + 1)) == v * 10 + (c - 48));
        }
        let next: u128 = (v as u128) * 10 + ((c - 48) as u128);
        if next > max as u128 {
            proof {
                assert(digits_value(d.take(i - s0 + 1)) > max);
                if forall|j: int| 0 <= j < d.len() ==> is_digit(#[trigger] d[j]) {
                    lemma_digits_value_prefix(d, i - s0 + 1);
                }
            }
            return None;
        }
        v = next as u64;
        i = i + 1;
    }
    proof {
        assert(d.take(d.len() as int) =~= d);
    }
    Some(v)
}

/// The one-character string of decimal digit `d`.
fn digit_str(d: u64) -> (r: &'static str)
    requires
        d < 10,
    ensures
        r@ == seq![digit_char(d as int)],
{
    if d == 0 {
        proof {
            reveal_strlit("0");
        }
        "0"
    } else if d == 1 {
        proof {
            reveal_strlit("1");
        }
        "1"
    } else if d == 2 {
        proof {
            reveal_strlit("2");
        }
        "2"
    } else if d == 3 {
        proof {
            reveal_strlit("3");
        }
        "3"
    } else if d == 4 {
        proof {
            reveal_strlit("4");
        }
        "4"
    } else if d == 5 {
        proof {
            reveal_strlit("5");
        }
        "5"
    } else if d == 6 {
        proof {
            reveal_strlit("6");
        }
        "6"
    } else if d == 7 {
        proof {
            reveal_strlit("7");
        }
        "7"
    } else if d == 8 {
        proof {
            reveal_strlit("8");
        }
        "8"
    } else {
        proof {
            reveal_strlit("9");
        }
        "9"
    }
}

/// Appends the decimal representation of `n` to `s`.
fn push_decimal(s: &mut String, n: u64)
    ensures
        final(s)@ == old(s)@ + decimal(n as nat),
    decreases n,
{
    if n >= 10 {
        push_decimal(s, n / 10);
        s.append(digit_str(n % 10));
        proof {
            assert(decimal(n as nat) == decimal((n / 10) as nat) + seq![digit_char((n % 10) as int)]);
            assert(old(s)@ + decimal((n / 10) as nat) + seq![digit_char((n % 10) as int)] =~= old(s)@
                + decimal(n as nat));
        }
    } else {
        s.append(digit_str(n));
    }
}

/// Abbreviated name of month `m`.
fn month_name_of(m: u64) -> (r: &'static str)
    requires
        1 <= m <= 12,
    ensures
        r == month_name(m as int),
{
    if m == 1 {
        "Jan"
    } else if m == 2 {
        "Feb"
    } else if m == 3 {
        "Mar"
    } else if m == 4 {
        "Apr"
    } else if m == 5 {
        "May"
    } else if m == 6 {
        "Jun"
    } else if m == 7 {
        "Jul"
    } else if m == 8 {
        "Aug"
    } else if m == 9 {
        "Sep"
    } else if m == 10 {
        "Oct"
    } else if m == 11 {
        "Nov"
    } else {
        "Dec"
    }
}

/// Shows a match date `YYYY-MM-DD[T...]` as month and day (`"Jan 20"`), or `"???"`
/// where it does not parse.
pub fn format_match_date(utc_date: &str) -> (r: String)
    ensures
        r@ == match_date(utc_date.spec_bytes()),
{
    let b = utc_date.as_bytes();
    let dlen = find_byte_in(b, 84, 0, b.len());
    proof {
        assert(b@.take(b@.len() as int) =~= b@);
    }
    let ghost d = b@.take(dlen as int);
    let i1 = find_byte_in(b, 45, 0, dlen);
    if i1 >= dlen {
        return String::from_str("???");
    }
    let i2 = find_byte_in(b, 45, i1 + 1, dlen);
    if i2 >= dlen {
        return String::from_str("???");
    }
    let i3 = find_byte_in(b, 45, i2 + 1, dlen);
    proof {
        assert(d.subrange(i1 + 1, i2 as int) =~= b@.subrange(i1 + 1, i2 as int));
        assert(d.subrange(i2 + 1, i3 as int) =~= b@.subrange(i2 + 1, i3 as int));
    }
    let month = parse_field(b, i1 + 1, i2, usize::MAX as u64);
    let day = parse_field(b, i2 + 1, i3, u32::MAX as u64);
    match (month, day) {
        (Some(m), Some(dd)) => {
            if 1 <= m && m <= 12 {
                let mut s = String::from_str(month_name_of(m));
                s.append(" ");
                proof {
                    reveal_strlit(" ");
                }
                push_decimal(&mut s, dd);
                s
            } else {
                String::from_str("???")
            }
        },
        _ => String::from_str("???"),
    }
}

/// Port the server listens on when none is configured.
pub const DEFAULT_PORT: u16 = 8080;

/// The port a configured value gives: the value read as a 16-bit unsigned
/// integer, or `DEFAULT_PORT` where it is absent or does not parse.
pub open spec fn port_of(value: Option<Seq<u8>>) -> int {
    match value {
        Some(b) => match parse_unsigned(b, u16::MAX as int) {
            Some(p) => p,
            None => DEFAULT_PORT as int,
        },
        None => DEFAULT_PORT as int,
    }
}

/// Settings of the web server.
#[derive(Debug)]
pub struct ServerConfig {
    pub port: u16,
    pub frame_url: String,
    pub static_root: String,
}

impl ServerConfig {
    /// Settings from the configured values of the port, the frame's URL and the
    /// static folder; the folder defaults to `./static`.
    pub fn from_values(port: Option<&str>, frame_url: String, static_root: Option<String>) -> (r:
        Self)
        ensures
            r.port == port_of(
                match port {
                    Some(p) => Some(p.spec_bytes()),
                    None => None,
                },
            ),
            r.frame_url == frame_url,
            r.static_root@ == match static_root {
                Some(s) => s@,
                None => "./static"@,
            },
    {
        let port = match port {
            Some(p) => {
                let b = p.as_bytes();
                match parse_field(b, 0, b.len(), u16::MAX as u64) {
                    Some(v) => {
                        proof {
                            assert(b@.subrange(0, b@.len() as int) =~= b@);
                        }
                        v as u16
                    },
                    None => {
                        proof {
                            assert(b@.subrange(0, b@.len() as int) =~= b@);
                        }
                        DEFAULT_PORT
                    },
                }
            },
            None => DEFAULT_PORT,
        };
        let static_root = match static_root {
            Some(s) => s,
            None => String::from_str("./static"),
        };
        ServerConfig { port, frame_url, static_root }
    }
}

} // verus!
