//! The info card: which flag the entry's text asks for, the battery report,
//! and the frames of the typing animation.

use vstd::prelude::*;
use crate::text::{append_chars, chars_eq, chars_of, string_of};

verus! {

/// What the info card shows for the entry's text.
#[derive(Clone, Copy, PartialEq, Eq, Structural, Debug)]
pub enum InfoFlag {
    /// `~t`: the date and time.
    Time,
    /// `~b`: the battery capacity.
    Battery,
    /// `` ` ``: the list of flags.
    Help,
    /// `!`: the invitation to ask the assistant.
    AskAi,
    /// Anything else: the usage hint.
    Hint,
}

/// The flag that the entry's text asks for.
pub open spec fn flag_of(text: Seq<char>) -> InfoFlag {
    if text == "~t"@ {
        InfoFlag::Time
    } else if text == "~b"@ {
        InfoFlag::Battery
    } else if text == "`"@ {
        InfoFlag::Help
    } else if text == "!"@ {
        InfoFlag::AskAi
    } else {
        InfoFlag::Hint
    }
}

/// The flag that the entry's text asks for.
pub fn info_flag(text: &str) -> (r: InfoFlag)
    ensures
        r == flag_of(text@),
{
    let t = chars_of(text);
    if chars_eq(&t, &chars_of("~t")) {
        InfoFlag::Time
    } else if chars_eq(&t, &chars_of("~b")) {
        InfoFlag::Battery
    } else if chars_eq(&t, &chars_of("`")) {
        InfoFlag::Help
    } else if chars_eq(&t, &chars_of("!")) {
        InfoFlag::AskAi
    } else {
        InfoFlag::Hint
    }
}

/// Whether the info card is revealed (and the result list hidden): the text
/// is empty or asks for a flag.
pub fn info_revealed(text: &str) -> (r: bool)
    ensures
        r == (text@.len() == 0 || flag_of(text@) != InfoFlag::Hint),
{
    let flag = info_flag(text);
    text.is_empty() || !matches!(flag, InfoFlag::Hint)
}

/// How full the battery is, in the words of the report.
#[derive(Clone, Copy, PartialEq, Eq, Structural, Debug)]
pub enum BatteryMood {
    /// Above 80.
    Nirvana,
    /// Between 50 and 80, both excluded.
    Harmony,
    /// Between 20 and 50, both excluded.
    Border,
    /// Any other capacity, 80, 50 and 20 included.
    Depleted,
}

/// The mood for a capacity.
pub open spec fn mood_of(n: u64) -> BatteryMood {
    if n > 80 {
        BatteryMood::Nirvana
    } else if n < 80 && n > 50 {
        BatteryMood::Harmony
    } else if n < 50 && n > 20 {
        BatteryMood::Border
    } else {
        BatteryMood::Depleted
    }
}

/// The mood for a capacity.
pub fn battery_mood(n: u64) -> (r: BatteryMood)
    ensures
        r == mood_of(n),
{
    if n > 80 {
        BatteryMood::Nirvana
    } else if n < 80 && n > 50 {
        BatteryMood::Harmony
    } else if n < 50 && n > 20 {
        BatteryMood::Border
    } else {
        BatteryMood::Depleted
    }
}

/// The words quoted for a mood.
pub open spec fn mood_words(m: BatteryMood) -> Seq<char> {
    match m {
        BatteryMood::Nirvana => "At battery nirvana."@,
        BatteryMood::Harmony => "In power harmony."@,
        BatteryMood::Border => "The border of zone efficiency."@,
        BatteryMood::Depleted => "Depleted juice."@,
    }
}

/// The words that the report quotes for a capacity: nirvana above 80,
/// harmony strictly between 50 and 80, the border strictly between 20 and
/// 50, depleted juice otherwise (80, 50 and 20 included).
pub proof fn law_report_words(n: u64)
    ensures
        n > 80 ==> mood_words(mood_of(n)) == "At battery nirvana."@,
        50 < n < 80 ==> mood_words(mood_of(n)) == "In power harmony."@,
        20 < n < 50 ==> mood_words(mood_of(n)) == "The border of zone efficiency."@,
        (n <= 20 || n == 50 || n == 80) ==> mood_words(mood_of(n)) == "Depleted juice."@,
{
}

/// Different moods quote different words.
pub proof fn law_moods_distinct(a: BatteryMood, b: BatteryMood)
    ensures
        a != b ==> mood_words(a) != mood_words(b),
{
    reveal_strlit("At battery nirvana.");
    reveal_strlit("In power harmony.");
    reveal_strlit("The border of zone efficiency.");
    reveal_strlit("Depleted juice.");
    if a != b {
        assert(mood_words(a).len() != mood_words(b).len() || mood_words(a)[0] != mood_words(b)[0]);
    }
}

/// The battery report: `Battery capacity, <capacity>%` and, in italics on a
/// second line, the quoted words of the mood.
pub fn battery_markup(capacity: &str, mood: BatteryMood) -> (r: String)
    ensures
        r@ == "Battery capacity, "@ + capacity@ + "%\n<i>\""@ + mood_words(mood) + "\"</i>"@,
{
    let mut out = chars_of("Battery capacity, ");
    append_chars(&mut out, &chars_of(capacity));
    append_chars(&mut out, &chars_of("%\n<i>\""));
    let words = match mood {
        BatteryMood::Nirvana => chars_of("At battery nirvana."),
        BatteryMood::Harmony => chars_of("In power harmony."),
        BatteryMood::Border => chars_of("The border of zone efficiency."),
        BatteryMood::Depleted => chars_of("Depleted juice."),
    };
    append_chars(&mut out, &words);
    append_chars(&mut out, &chars_of("\"</i>"));
    string_of(&out)
}

/// The style the card takes for a mood: `batg` when full enough, `batb` when
/// depleted, unchanged at the border.
pub fn battery_style(mood: BatteryMood) -> (r: Option<String>)
    ensures
        match mood {
            BatteryMood::Nirvana | BatteryMood::Harmony => r matches Some(s) && s@ == "batg"@,
            BatteryMood::Depleted => r matches Some(s) && s@ == "batb"@,
            BatteryMood::Border => r is None,
        },
{
    match mood {
        BatteryMood::Nirvana | BatteryMood::Harmony => Some("batg".to_owned()),
        BatteryMood::Depleted => Some("batb".to_owned()),
        BatteryMood::Border => None,
    }
}

/// Whether every character of `s` is an ASCII digit.
pub open spec fn all_digits(s: Seq<char>) -> bool {
    forall|i: int| 0 <= i < s.len() ==> '0' <= #[trigger] s[i] <= '9'
}

/// The number that the decimal digits `s` write.
pub open spec fn digits_value(s: Seq<char>) -> int
    decreases s.len(),
{
    if s.len() == 0 {
        0
    } else {
        digits_value(s.drop_last()) * 10 + (s.last() as int - '0' as int)
    }
}

/// What `str::parse::<u64>` gives: an optional `+` followed by at least one
/// decimal digit, whose value fits in a `u64`.
pub open spec fn parsed_u64(s: Seq<char>) -> Option<u64> {
    let d = if s.len() > 0 && s[0] == '+' { s.drop_first() } else { s };
    if d.len() > 0 && all_digits(d) && digits_value(d) <= u64::MAX {
        Some(digits_value(d) as u64)
    } else {
        None
    }
}

proof fn lemma_digits_value_prefix(s: Seq<char>, k: int)
    requires
        all_digits(s),
        0 <= k <= s.len(),
    ensures
        0 <= digits_value(s.take(k)) <= digits_value(s),
    decreases s.len(),
{
    if k == s.len() {
        assert(s.take(k) =~= s);
        lemma_digits_value_nonneg(s);
    } else {
        assert(s.drop_last().take(k) =~= s.take(k));
        assert(all_digits(s.drop_last())) by {
            assert forall|i: int| 0 <= i < s.drop_last().len() implies '0' <= #[trigger] s.drop_last()[i] <= '9' by {
                assert(s.drop_last()[i] == s[i]);
            }
        }
        lemma_digits_value_prefix(s.drop_last(), k);
        assert('0' <= s[s.len() - 1] <= '9');
    }
}

proof fn lemma_digits_value_nonneg(s: Seq<char>)
    requires
        all_digits(s),
    ensures
        digits_value(s) >= 0,
    decreases s.len(),
{
    if s.len() > 0 {
        assert(all_digits(s.drop_last())) by {
            assert forall|i: int| 0 <= i < s.drop_last().len() implies '0' <= #[trigger] s.drop_last()[i] <= '9' by {
                assert(s.drop_last()[i] == s[i]);
            }
        }
        lemma_digits_value_nonneg(s.drop_last());
        assert('0' <= s[s.len() - 1] <= '9');
    }
}

/// The capacity written in `text` (`str::parse::<u64>`), or `None` when it
/// is not a decimal number that fits in a `u64`.
pub fn parse_capacity(text: &str) -> (r: Option<u64>)
    ensures
        r == parsed_u64(text@),
{
    let s = chars_of(text);
    let start: usize = if s.len() > 0 && s[0] == '+' { 1 } else { 0 };
    let ghost d = if s@.len() > 0 && s@[0] == '+' { s@.drop_first() } else { s@ };
    assert(d =~= s@.skip(start as int));
    if start >= s.len() {
        return None;
    }
    let n = s.len();
    let mut k: usize = start;
    let mut acc: u64 = 0;
    assert(d.take(0) =~= Seq::<char>::empty());
    while k < n
        invariant
            start <= k <= n == s@.len(),
            s@ == text@,
            d == (if s@.len() > 0 && s@[0] == '+' { s@.drop_first() } else { s@ }),
            d == s@.skip(start as int),
            forall|i: int| 0 <= i < k - start ==> '0' <= #[trigger] d[i] <= '9',
            acc == digits_value(d.take(k - start)),
        decreases n - k,
    {
        let c = s[k];
        assert(d[k - start] == c);
        if c < '0' || c > '9' {
            assert(!all_digits(d));
            return None;
        }
        let digit = (c as u32 - '0' as u32) as u64;
        assert(d.take(k - start + 1).drop_last() =~= d.take(k - start));
        assert(d.take(k - start + 1).last() == c);
        assert(digit == c as int - '0' as int);
        match acc.checked_mul(10) {
            None => {
                proof {
                    if all_digits(d) {
                        lemma_digits_value_prefix(d, k - start + 1);
                        lemma_digits_value_prefix(d, k - start);
                    }
                }
                return None;
            },
            Some(m) => match m.checked_add(digit) {
                None => {
                    proof {
                        if all_digits(d) {
                            lemma_digits_value_prefix(d, k - start + 1);
                            lemma_digits_value_prefix(d, k - start);
                        }
                    }
                    return None;
                },
                Some(v) => {
                    acc = v;
                },
            },
        }
        k += 1;
    }
    assert(d.take(n - start) =~= d);
    assert(all_digits(d));
    Some(acc)
}

/// The text shown at step `step` of the typing animation: the first
/// `step + 1` characters, or `None` once the whole text has been shown.
pub fn typing_frame(chars: &Vec<char>, step: usize) -> (r: Option<String>)
    ensures
        match r {
            Some(s) => step < chars@.len() && s@ == chars@.take(step + 1),
            None => step >= chars@.len(),
        },
{
    if step < chars.len() {
        let prefix = crate::text::copy_range(chars, 0, step + 1);
        assert(chars@.subrange(0, step + 1) =~= chars@.take(step + 1));
        Some(string_of(&prefix))
    } else {
        None
    }
}

/// The height requested for the chat while a reply is typed: the height of
/// its content, at most 800.
pub fn reply_scroller_height(content_height: i32) -> (r: i32)
    ensures
        r == if content_height < 800 { content_height } else { 800 },
{
    if content_height < 800 {
        content_height
    } else {
        800
    }
}

} // verus!
