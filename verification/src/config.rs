//! Run configuration: trading mode, instrument type, and the parts of the
//! configuration that are derived from text (symbol lists, flags, endpoints).

use vstd::prelude::*;

use crate::text::{chars_of, push_char, string_of};

verus! {

/// Trading mode.
#[derive(Debug, Clone, Copy, PartialEq, Eq, Structural)]
pub enum Mode {
    /// Live trading mode with real market data
    Live,
    /// Replay mode using historical data
    Replay,
}

impl Mode {
    /// The variant's name (`Live` or `Replay`).
    pub open spec fn name(self) -> Seq<char> {
        match self {
            Mode::Live => "Live"@,
            Mode::Replay => "Replay"@,
        }
    }

    /// The variant's name (`Live` or `Replay`).
    pub fn as_str(&self) -> (r: &'static str)
        ensures
            r@ == self.name(),
    {
        match self {
            Mode::Live => "Live",
            Mode::Replay => "Replay",
        }
    }
}

/// Instrument type.
#[derive(Debug, Clone, Copy, PartialEq, Eq, Structural)]
pub enum InstrumentType {
    /// Spot trading
    Spot,
    /// Perpetual contracts
    Perp,
    /// Options
    Option,
}

impl InstrumentType {
    /// The lower-case name (`spot`, `perp` or `option`).
    pub open spec fn name(self) -> Seq<char> {
        match self {
            InstrumentType::Spot => "spot"@,
            InstrumentType::Perp => "perp"@,
            InstrumentType::Option => "option"@,
        }
    }

    /// The lower-case name (`spot`, `perp` or `option`).
    pub fn as_str(&self) -> (r: &'static str)
        ensures
            r@ == self.name(),
    {
        match self {
            InstrumentType::Spot => "spot",
            InstrumentType::Perp => "perp",
            InstrumentType::Option => "option",
        }
    }

    /// The Bybit category for API calls: `spot`, `linear` for perpetuals,
    /// `option`.
    pub fn category(&self) -> (r: &'static str)
        ensures
            r@ == (match *self {
                InstrumentType::Spot => "spot"@,
                InstrumentType::Perp => "linear"@,
                InstrumentType::Option => "option"@,
            }),
    {
        match self {
            InstrumentType::Spot => "spot",
            InstrumentType::Perp => "linear",
            InstrumentType::Option => "option",
        }
    }

    /// The default public WebSocket endpoint for the instrument's category
    /// on the test network.
    pub open spec fn default_ws_url(self) -> Seq<char> {
        "wss://stream-testnet.bybit.com/v5/public"@ + match self {
            InstrumentType::Spot => "/spot"@,
            InstrumentType::Perp => "/linear"@,
            InstrumentType::Option => "/option"@,
        }
    }

    /// The default public WebSocket endpoint for the instrument's category
    /// on the test network.
    pub fn public_ws_url(&self) -> (r: String)
        ensures
            r@ == self.default_ws_url(),
    {
        let mut url = string_of("wss://stream-testnet.bybit.com/v5/public");
        match self {
            InstrumentType::Spot => url.append("/spot"),
            InstrumentType::Perp => url.append("/linear"),
            InstrumentType::Option => url.append("/option"),
        }
        url
    }

    /// The environment variable that may name the public WebSocket endpoint
    /// for the instrument's category.
    pub open spec fn ws_url_variable(self) -> Seq<char> {
        match self {
            InstrumentType::Spot => "BYBIT_WS_PUBLIC_SPOT_URL"@,
            InstrumentType::Perp => "BYBIT_WS_PUBLIC_LINEAR_URL"@,
            InstrumentType::Option => "BYBIT_WS_PUBLIC_OPTION_URL"@,
        }
    }

    /// The environment variable that may name the public WebSocket endpoint
    /// (`BYBIT_WS_PUBLIC_{SPOT,LINEAR,OPTION}_URL`).
    pub fn ws_url_variable_name(&self) -> (r: &'static str)
        ensures
            r@ == self.ws_url_variable(),
    {
        match self {
            InstrumentType::Spot => "BYBIT_WS_PUBLIC_SPOT_URL",
            InstrumentType::Perp => "BYBIT_WS_PUBLIC_LINEAR_URL",
            InstrumentType::Option => "BYBIT_WS_PUBLIC_OPTION_URL",
        }
    }

    /// The environment variable that may name the instrument's symbol.
    pub open spec fn symbol_variable(self) -> Seq<char> {
        match self {
            InstrumentType::Spot => "BYBIT_SPOT_SYMBOL"@,
            InstrumentType::Perp => "BYBIT_LINEAR_SYMBOL"@,
            InstrumentType::Option => "BYBIT_OPTION_SYMBOL"@,
        }
    }

    /// The environment variable that may name the instrument's symbol
    /// (`BYBIT_{SPOT,LINEAR,OPTION}_SYMBOL`).
    pub fn symbol_variable_name(&self) -> (r: &'static str)
        ensures
            r@ == self.symbol_variable(),
    {
        match self {
            InstrumentType::Spot => "BYBIT_SPOT_SYMBOL",
            InstrumentType::Perp => "BYBIT_LINEAR_SYMBOL",
            InstrumentType::Option => "BYBIT_OPTION_SYMBOL",
        }
    }

    /// The public WebSocket endpoint: the configured one where the variable
    /// is set, otherwise the default for the category.
    pub fn choose_public_ws_url(&self, configured: Option<&str>) -> (r: String)
        ensures
            configured matches Some(u) ==> r@ == u@,
            configured is None ==> r@ == self.default_ws_url(),
    {
        match configured {
            Some(u) => string_of(u),
            None => self.public_ws_url(),
        }
    }
}

/// Command-line options.
#[derive(Debug, Clone)]
pub struct Cli {
    /// Trading mode: live or replay
    pub mode: Mode,
    /// Instrument type: spot, perp, or option
    pub instrument: InstrumentType,
    /// How many seconds to run before stopping
    pub run_seconds: u64,
    /// Trading symbols (comma-separated, e.g., "USDC/USDT,BTC/USDT")
    pub symbols: Option<String>,
    /// Generate a report after completion
    pub report: bool,
    /// Cancel all open orders on shutdown
    pub cancel_on_shutdown: bool,
    /// Replay data file path (for replay mode)
    pub replay_file: Option<String>,
}

/// `s` without any occurrence of `c`.
pub open spec fn without_char(s: Seq<char>, c: char) -> Seq<char>
    decreases s.len(),
{
    if s.len() == 0 {
        Seq::empty()
    } else if s.last() == c {
        without_char(s.drop_last(), c)
    } else {
        without_char(s.drop_last(), c).push(s.last())
    }
}

/// Removing a character leaves none of it, keeps a text without it as it
/// is, and removes exactly the occurrences of it (the other characters stay,
/// in order).
pub proof fn lemma_without_char(s: Seq<char>, c: char)
    ensures
        !without_char(s, c).contains(c),
        !s.contains(c) ==> without_char(s, c) == s,
        without_char(s, c).len() + (s.len() - s.filter(|x: char| x != c).len()) == s.len(),
        without_char(s, c) == s.filter(|x: char| x != c),
    decreases s.len(),
{
    reveal_with_fuel(Seq::filter, 1);
    if s.len() > 0 {
        lemma_without_char(s.drop_last(), c);
        if !s.contains(c) {
            assert forall|x: char| s.drop_last().contains(x) implies s.contains(x) by {
                let i = choose|i: int| 0 <= i < s.drop_last().len() && s.drop_last()[i] == x;
                assert(s[i] == x);
            }
            assert(s.last() != c) by {
                assert(s[s.len() - 1] == s.last());
            }
            assert(s.drop_last().push(s.last()) == s);
        }
        let w = without_char(s.drop_last(), c);
        if s.last() != c {
            assert forall|i: int| 0 <= i < w.push(s.last()).len() implies w.push(s.last())[i] != c by {
                if i < w.len() {
                    assert(!w.contains(c));
                    if w[i] == c {
                        assert(w.contains(c));
                    }
                }
            }
        }
    } else {
        assert(s.filter(|x: char| x != c) =~= Seq::<char>::empty());
    }
}

/// The Bybit form of a symbol: the slashes removed (`USDC/USDT` becomes
/// `USDCUSDT`).
pub fn to_bybit_symbol(symbol: &str) -> (r: String)
    ensures
        r@ == without_char(symbol@, '/'),
{
    let chars = chars_of(symbol);
    let mut out = String::new();
    let mut i: usize = 0;
    while i < chars.len()
        invariant
            i <= chars@.len(),
            out@ == without_char(chars@.take(i as int), '/'),
        decreases chars@.len() - i,
    {
        assert(chars@.take(i + 1).drop_last() == chars@.take(i as int));
        if chars[i] != '/' {
            push_char(&mut out, chars[i]);
        }
        i = i + 1;
    }
    assert(chars@.take(chars@.len() as int) == chars@);
    out
}

/// Unicode white space, as `char::is_whitespace` defines it.
pub open spec fn is_whitespace(c: char) -> bool {
    ||| ('\u{9}' <= c && c <= '\u{d}')
    ||| c == ' '
    ||| c == '\u{85}'
    ||| c == '\u{a0}'
    ||| c == '\u{1680}'
    ||| ('\u{2000}' <= c && c <= '\u{200a}')
    ||| c == '\u{2028}'
    ||| c == '\u{2029}'
    ||| c == '\u{202f}'
    ||| c == '\u{205f}'
    ||| c == '\u{3000}'
}

fn is_whitespace_char(c: char) -> (r: bool)
    ensures
        r == is_whitespace(c),
{
    ('\u{9}' <= c && c <= '\u{d}') || c == ' ' || c == '\u{85}' || c == '\u{a0}' || c
        == '\u{1680}' || ('\u{2000}' <= c && c <= '\u{200a}') || c == '\u{2028}' || c
        == '\u{2029}' || c == '\u{202f}' || c == '\u{205f}' || c == '\u{3000}'
}

/// `s` without leading white space.
pub open spec fn trim_start(s: Seq<char>) -> Seq<char>
    decreases s.len(),
{
    if s.len() > 0 && is_whitespace(s[0]) {
        trim_start(s.drop_first())
    } else {
        s
    }
}

/// `s` without trailing white space.
pub open spec fn trim_end(s: Seq<char>) -> Seq<char>
    decreases s.len(),
{
    if s.len() > 0 && is_whitespace(s.last()) {
        trim_end(s.drop_last())
    } else {
        s
    }
}

/// `s` without leading or trailing white space (what `str::trim` gives).
pub open spec fn trim(s: Seq<char>) -> Seq<char> {
    trim_end(trim_start(s))
}

/// The pieces of `s` between occurrences of `sep` (what `str::split` gives:
/// one piece more than there are separators).
pub open spec fn split_pieces(s: Seq<char>, sep: char) -> Seq<Seq<char>>
    decreases s.len(),
{
    if s.len() == 0 {
        seq![Seq::empty()]
    } else {
        let p = split_pieces(s.drop_last(), sep);
        if s.last() == sep {
            p.push(Seq::empty())
        } else {
            p.update(p.len() - 1, p.last().push(s.last()))
        }
    }
}

/// The characters of `chars[start..end]` without surrounding white space.
fn trimmed(chars: &Vec<char>, start: usize, end: usize) -> (r: String)
    requires
        start <= end <= chars@.len(),
    ensures
        r@ == trim(chars@.subrange(start as int, end as int)),
{
    let ghost s = chars@.subrange(start as int, end as int);
    let mut a = start;
    while a < end && is_whitespace_char(chars[a])
        invariant
            start <= a <= end,
            end <= chars@.len(),
            trim_start(s) == trim_start(chars@.subrange(a as int, end as int)),
        decreases end - a,
    {
        assert(chars@.subrange(a as int, end as int).drop_first() == chars@.subrange(
            a + 1,
            end as int,
        ));
        a = a + 1;
    }
    assert(trim_start(s) == chars@.subrange(a as int, end as int));
    let mut b = end;
    while b > a && is_whitespace_char(chars[b - 1])
        invariant
            a <= b <= end,
            end <= chars@.len(),
            trim(s) == trim_end(chars@.subrange(a as int, b as int)),
        decreases b - a,
    {
        assert(chars@.subrange(a as int, b as int).drop_last() == chars@.subrange(
            a as int,
            b - 1,
        ));
        b = b - 1;
    }
    assert(trim(s) == chars@.subrange(a as int, b as int));
    let mut out = String::new();
    let mut k = a;
    while k < b
        invariant
            a <= k <= b,
            b <= chars@.len(),
            out@ == chars@.subrange(a as int, k as int),
        decreases b - k,
    {
        push_char(&mut out, chars[k]);
        assert(chars@.subrange(a as int, k + 1) == chars@.subrange(a as int, k as int).push(
            chars@[k as int],
        ));
        k = k + 1;
    }
    out
}

/// The texts of a list of strings.
pub open spec fn string_views(v: Seq<String>) -> Seq<Seq<char>> {
    v.map_values(|s: String| s@)
}

/// A comma-separated symbol list: each piece between commas, trimmed of
/// white space.
pub fn parse_symbols(text: &str) -> (r: Vec<String>)
    ensures
        string_views(r@) == split_pieces(text@, ',').map_values(|p: Seq<char>| trim(p)),
{
    let chars = chars_of(text);
    let ghost s = chars@;
    let mut out: Vec<String> = Vec::new();
    let mut start: usize = 0;
    let mut i: usize = 0;
    proof {
        assert(s.take(0) =~= Seq::<char>::empty());
        assert(s.subrange(0, 0) =~= Seq::<char>::empty());
    }
    while i < chars.len()
        invariant
            s == chars@,
            start <= i <= s.len(),
            split_pieces(s.take(i as int), ',').len() == out@.len() + 1,
            split_pieces(s.take(i as int), ',').last() == s.subrange(start as int, i as int),
            forall|j: int|
                0 <= j < out@.len() ==> (#[trigger] out@[j])@ == trim(
                    split_pieces(s.take(i as int), ',')[j],
                ),
        decreases s.len() - i,
    {
        assert(s.take(i + 1).drop_last() == s.take(i as int));
        assert(s.take(i + 1).last() == s[i as int]);
        if chars[i] == ',' {
            let piece = trimmed(&chars, start, i);
            out.push(piece);
            start = i + 1;
            assert(s.subrange(start as int, (i + 1) as int) =~= Seq::<char>::empty());
        } else {
            assert(s.subrange(start as int, i + 1) == s.subrange(start as int, i as int).push(
                s[i as int],
            ));
        }
        i = i + 1;
    }
    let last = trimmed(&chars, start, chars.len());
    out.push(last);
    proof {
        assert(s.take(s.len() as int) == s);
        assert(s.subrange(0, s.len() as int) =~= s);
        assert(string_views(out@) =~= split_pieces(s, ',').map_values(|p: Seq<char>| trim(p)));
    }
    out
}

/// A flag as `str::parse::<bool>` reads it (`true` or `false`), or the
/// default for any other text.
pub fn parse_bool_or(text: &str, default: bool) -> (r: bool)
    ensures
        r == (if text@ == "true"@ {
            true
        } else if text@ == "false"@ {
            false
        } else {
            default
        }),
{
    if crate::text::str_equal(text, "true") {
        true
    } else if crate::text::str_equal(text, "false") {
        false
    } else {
        default
    }
}

/// The symbols of a run: the command line's list where given, else the
/// instrument's symbol variable (`BYBIT_SPOT_SYMBOL`, `BYBIT_LINEAR_SYMBOL`
/// or `BYBIT_OPTION_SYMBOL`), else the `SYMBOLS` list, else `USDC/USDT` (the
/// spot default, `USDCUSDT` on Bybit); split on commas and trimmed.
pub fn choose_symbols(
    cli: Option<&str>,
    instrument_symbol: Option<&str>,
    env: Option<&str>,
) -> (r: Vec<String>)
    ensures
        string_views(r@) == split_pieces(
            match (cli, instrument_symbol, env) {
                (Some(c), _, _) => c@,
                (None, Some(i), _) => i@,
                (None, None, Some(e)) => e@,
                (None, None, None) => "USDC/USDT"@,
            },
            ',',
        ).map_values(|p: Seq<char>| trim(p)),
{
    match cli {
        Some(c) => parse_symbols(c),
        None => match instrument_symbol {
            Some(i) => parse_symbols(i),
            None => match env {
                Some(e) => parse_symbols(e),
                None => parse_symbols("USDC/USDT"),
            },
        },
    }
}

} // verus!
