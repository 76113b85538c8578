//! Words and records of the target's memory, and the walk over its initial stack.

use vstd::prelude::*;

verus! {

/// The 64-bit little-endian word that starts at `at`.
pub open spec fn word_at(bytes: Seq<u8>, at: int) -> u64 {
    bytes[at] as u64 | (bytes[at + 1] as u64) << 8u64 | (bytes[at + 2] as u64) << 16u64 | (
    bytes[at + 3] as u64) << 24u64 | (bytes[at + 4] as u64) << 32u64 | (bytes[at + 5] as u64)
        << 40u64 | (bytes[at + 6] as u64) << 48u64 | (bytes[at + 7] as u64) << 56u64
}

/// The eight little-endian bytes of a word.
pub open spec fn word_bytes(word: u64) -> Seq<u8> {
    seq![
        word as u8,
        (word >> 8u64) as u8,
        (word >> 16u64) as u8,
        (word >> 24u64) as u8,
        (word >> 32u64) as u8,
        (word >> 40u64) as u8,
        (word >> 48u64) as u8,
        (word >> 56u64) as u8,
    ]
}

/// Read the word that starts at `at`.
pub fn read_word(bytes: &Vec<u8>, at: usize) -> (word: u64)
    requires
        at + 8 <= bytes.len(),
    ensures
        word == word_at(bytes@, at as int),
{
    bytes[at] as u64 | (bytes[at + 1] as u64) << 8u64 | (bytes[at + 2] as u64) << 16u64 | (bytes[at
        + 3] as u64) << 24u64 | (bytes[at + 4] as u64) << 32u64 | (bytes[at + 5] as u64) << 40u64 | (
    bytes[at + 6] as u64) << 48u64 | (bytes[at + 7] as u64) << 56u64
}

/// Append the bytes of a word.
pub fn push_word(bytes: &mut Vec<u8>, word: u64)
    ensures
        final(bytes)@ == old(bytes)@ + word_bytes(word),
{
    bytes.push(word as u8);
    bytes.push((word >> 8u64) as u8);
    bytes.push((word >> 16u64) as u8);
    bytes.push((word >> 24u64) as u8);
    bytes.push((word >> 32u64) as u8);
    bytes.push((word >> 40u64) as u8);
    bytes.push((word >> 48u64) as u8);
    bytes.push((word >> 56u64) as u8);
    assert(bytes@ =~= old(bytes)@ + word_bytes(word));
}

/// A word that is written is the word that is read.
pub proof fn words_round_trip(before: Seq<u8>, word: u64, after: Seq<u8>)
    ensures
        word_at(before + word_bytes(word) + after, before.len() as int) == word,
{
    let all = before + word_bytes(word) + after;
    let at = before.len() as int;
    assert forall|i: int| 0 <= i < 8 implies all[at + i] == #[trigger] word_bytes(word)[i] by {}
    assert(all[at] == word_bytes(word)[0]);
    assert(all[at + 1] == word_bytes(word)[1]);
    assert(all[at + 2] == word_bytes(word)[2]);
    assert(all[at + 3] == word_bytes(word)[3]);
    assert(all[at + 4] == word_bytes(word)[4]);
    assert(all[at + 5] == word_bytes(word)[5]);
    assert(all[at + 6] == word_bytes(word)[6]);
    assert(all[at + 7] == word_bytes(word)[7]);
    assert((word as u8) as u64 | ((word >> 8u64) as u8 as u64) << 8u64 | ((word >> 16u64) as u8 as u64)
        << 16u64 | ((word >> 24u64) as u8 as u64) << 24u64 | ((word >> 32u64) as u8 as u64) << 32u64
        | ((word >> 40u64) as u8 as u64) << 40u64 | ((word >> 48u64) as u8 as u64) << 48u64 | ((word
        >> 56u64) as u8 as u64) << 56u64 == word) by (bit_vector);
}

/// `struct timespec`: seconds, then nanoseconds.
pub open spec fn timespec_at(bytes: Seq<u8>) -> (i64, i64) {
    (word_at(bytes, 0) as i64, word_at(bytes, 8) as i64)
}

/// Decode a `struct timespec` (or `struct timeval`).
pub fn decode_timespec(bytes: &Vec<u8>) -> (time: (i64, i64))
    requires
        bytes.len() >= 16,
    ensures
        time == timespec_at(bytes@),
{
    (read_word(bytes, 0) as i64, read_word(bytes, 8) as i64)
}

/// Encode a `struct timespec` (or `struct timeval`).
pub fn encode_timespec(secs: i64, nanos: i64) -> (bytes: Vec<u8>)
    ensures
        bytes@ == word_bytes(secs as u64) + word_bytes(nanos as u64),
        timespec_at(bytes@) == (secs, nanos),
{
    let mut bytes: Vec<u8> = Vec::new();
    push_word(&mut bytes, secs as u64);
    push_word(&mut bytes, nanos as u64);
    proof {
        let s = word_bytes(secs as u64);
        let n = word_bytes(nanos as u64);
        words_round_trip(Seq::empty(), secs as u64, n);
        words_round_trip(s, nanos as u64, Seq::empty());
        assert(bytes@ =~= Seq::<u8>::empty() + s + n);
        assert(bytes@ =~= s + n + Seq::<u8>::empty());
        assert((secs as u64) as i64 == secs) by (bit_vector);
        assert((nanos as u64) as i64 == nanos) by (bit_vector);
    }
    bytes
}

pub const AT_NULL: u64 = 0;

pub const AT_IGNORE: u64 = 1;

pub const AT_SYSINFO_EHDR: u64 = 33;

/// No more auxiliary entries than this are looked at.
pub const MAX_AUX_ENTRIES: u32 = 512;

/// Walk over a fresh program's stack, word by word: argument count, argument pointers, environment
/// pointers, then the auxiliary vector, where the entry that reveals the vDSO is hidden.
#[derive(Debug, Clone, Copy, PartialEq, Eq, Structural)]
pub enum AuxvScan {
    /// The word at this address is the argument count.
    Argc { at: u64 },
    /// The word at this address is an environment pointer, or the null that ends them.
    Env { at: u64 },
    /// The word at this address is the key of the next auxiliary entry.
    Aux { at: u64, seen: u32, rewritten: bool },
    /// The walk is over.
    Done { rewritten: bool },
}

/// What to do before the walk goes on.
#[derive(Debug, Clone, Copy, PartialEq, Eq, Structural)]
pub enum AuxvEdit {
    Nothing,
    /// Overwrite the word at this address with [`AT_IGNORE`].
    Ignore { at: u64 },
}

impl AuxvScan {
    /// The walk stays inside the address space when `word` is what it reads next.
    pub open spec fn fits(self, word: u64) -> bool {
        match self {
            AuxvScan::Argc { at } => at + 8 + (word + 1) * 8 <= u64::MAX,
            AuxvScan::Env { at } => at + 8 <= u64::MAX,
            AuxvScan::Aux { at, seen, rewritten } => at + 16 <= u64::MAX && seen < MAX_AUX_ENTRIES,
            AuxvScan::Done { .. } => false,
        }
    }

    pub open spec fn next(self, word: u64) -> AuxvScan {
        match self {
            AuxvScan::Argc { at } => AuxvScan::Env { at: (at + 8 + (word + 1) * 8) as u64 },
            AuxvScan::Env { at } => if word == 0 {
                AuxvScan::Aux { at: (at + 8) as u64, seen: 0, rewritten: false }
            } else {
                AuxvScan::Env { at: (at + 8) as u64 }
            },
            AuxvScan::Aux { at, seen, rewritten } => {
                let hit = rewritten || word == AT_SYSINFO_EHDR;
                if word == AT_NULL {
                    AuxvScan::Done { rewritten }
                } else if seen + 1 == MAX_AUX_ENTRIES {
                    AuxvScan::Done { rewritten: hit }
                } else {
                    AuxvScan::Aux {
                        at: (at + 16) as u64,
                        seen: (seen + 1) as u32,
                        rewritten: hit,
                    }
                }
            },
            AuxvScan::Done { .. } => self,
        }
    }

    /// Start at the stack pointer of a program that has not run yet.
    pub fn new(rsp: u64) -> (scan: Self)
        ensures
            scan == (AuxvScan::Argc { at: rsp }),
    {
        AuxvScan::Argc { at: rsp }
    }

    /// Address of the word to read next; `None` when the walk is over.
    pub fn wants(&self) -> (address: Option<u64>)
        ensures
            address == match *self {
                AuxvScan::Argc { at } => Some(at),
                AuxvScan::Env { at } => Some(at),
                AuxvScan::Aux { at, .. } => Some(at),
                AuxvScan::Done { .. } => None,
            },
    {
        match *self {
            AuxvScan::Argc { at } => Some(at),
            AuxvScan::Env { at } => Some(at),
            AuxvScan::Aux { at, .. } => Some(at),
            AuxvScan::Done { .. } => None,
        }
    }

    /// Whether the walk stays inside the address space when `word` is what it reads next.
    pub fn accepts(&self, word: u64) -> (accepted: bool)
        ensures
            accepted == self.fits(word),
    {
        match *self {
            AuxvScan::Argc { at } => at as u128 + 8 + (word as u128 + 1) * 8 <= u64::MAX as u128,
            AuxvScan::Env { at } => at <= u64::MAX - 8,
            AuxvScan::Aux { at, seen, .. } => at <= u64::MAX - 16 && seen < MAX_AUX_ENTRIES,
            AuxvScan::Done { .. } => false,
        }
    }

    /// Hand over the word that was asked for.
    pub fn feed(&mut self, word: u64) -> (edit: AuxvEdit)
        requires
            old(self).fits(word),
        ensures
            *final(self) == old(self).next(word),
            edit == match *old(self) {
                AuxvScan::Aux { at, .. } => if word == AT_SYSINFO_EHDR {
                    AuxvEdit::Ignore { at }
                } else {
                    AuxvEdit::Nothing
                },
                _ => AuxvEdit::Nothing,
            },
    {
        match *self {
            AuxvScan::Argc { at } => {
                *self = AuxvScan::Env { at: at + 8 + (word + 1) * 8 };
                AuxvEdit::Nothing
            },
            AuxvScan::Env { at } => {
                *self = if word == 0 {
                    AuxvScan::Aux { at: at + 8, seen: 0, rewritten: false }
                } else {
                    AuxvScan::Env { at: at + 8 }
                };
                AuxvEdit::Nothing
            },
            AuxvScan::Aux { at, seen, rewritten } => {
                if word == AT_NULL {
                    *self = AuxvScan::Done { rewritten };
                    return AuxvEdit::Nothing;
                }
                let hit = rewritten || word == AT_SYSINFO_EHDR;
                *self = if seen + 1 == MAX_AUX_ENTRIES {
                    AuxvScan::Done { rewritten: hit }
                } else {
                    AuxvScan::Aux { at: at + 16, seen: seen + 1, rewritten: hit }
                };
                if word == AT_SYSINFO_EHDR {
                    AuxvEdit::Ignore { at }
                } else {
                    AuxvEdit::Nothing
                }
            },
            AuxvScan::Done { .. } => AuxvEdit::Nothing,
        }
    }
}

/// Why a `/proc` status text names no thread group.
#[derive(Debug, Clone, Copy, PartialEq, Eq, Structural)]
pub enum TgidError {
    /// No line starts with `Tgid:`.
    Missing,
    /// The line holds no 32-bit number.
    Invalid,
}

pub open spec fn is_digit(c: char) -> bool {
    '0' <= c <= '9'
}

/// White space, as Unicode counts it.
pub open spec fn is_blank(c: char) -> bool {
    ||| '\u{9}' <= c <= '\u{d}'
    ||| c == ' '
    ||| c == '\u{85}'
    ||| c == '\u{a0}'
    ||| c == '\u{1680}'
    ||| '\u{2000}' <= c <= '\u{200a}'
    ||| c == '\u{2028}'
    ||| c == '\u{2029}'
    ||| c == '\u{202f}'
    ||| c == '\u{205f}'
    ||| c == '\u{3000}'
}

/// Position of the next line feed at or after `from`, or the end of the text.
pub open spec fn line_end(text: Seq<char>, from: int) -> int
    decreases text.len() - from,
{
    if from >= text.len() || from < 0 {
        text.len() as int
    } else if text[from] == '\n' {
        from
    } else {
        line_end(text, from + 1)
    }
}

pub open spec fn starts_with_tgid(text: Seq<char>, at: int) -> bool {
    at + 5 <= text.len() && text[at] == 'T' && text[at + 1] == 'g' && text[at + 2] == 'i' && text[at
        + 3] == 'd' && text[at + 4] == ':'
}

/// Value of a run of decimal digits; `None` where a character is no digit.
pub open spec fn decimal(digits: Seq<char>) -> Option<int>
    decreases digits.len(),
{
    if digits.len() == 0 {
        Some(0)
    } else {
        match decimal(digits.drop_last()) {
            Some(v) => if is_digit(digits.last()) {
                Some(10 * v + (digits.last() as int - '0' as int))
            } else {
                None
            },
            None => None,
        }
    }
}

/// A signed 32-bit decimal number: an optional sign and at least one digit.
pub open spec fn signed_decimal(text: Seq<char>) -> Option<i32> {
    let signed = text.len() > 0 && (text[0] == '+' || text[0] == '-');
    let digits = if signed {
        text.skip(1)
    } else {
        text
    };
    if digits.len() == 0 {
        None
    } else {
        match decimal(digits) {
            Some(v) => {
                let value = if signed && text[0] == '-' {
                    -v
                } else {
                    v
                };
                if i32::MIN <= value <= i32::MAX {
                    Some(value as i32)
                } else {
                    None
                }
            },
            None => None,
        }
    }
}

/// `text` without the blanks at its ends.
pub open spec fn trimmed(text: Seq<char>) -> Seq<char>
    decreases text.len(),
{
    if text.len() > 0 && is_blank(text[0]) {
        trimmed(text.skip(1))
    } else if text.len() > 0 && is_blank(text.last()) {
        trimmed(text.drop_last())
    } else {
        text
    }
}

/// The thread group that a `/proc` status text names, looking at the lines from `from` on.
pub open spec fn tgid_in(text: Seq<char>, from: int) -> Result<i32, TgidError>
    decreases text.len() - from,
{
    if from < 0 || from >= text.len() {
        Err(TgidError::Missing)
    } else {
        let end = line_end(text, from);
        if starts_with_tgid(text.take(end), from) {
            match signed_decimal(trimmed(text.subrange(from + 5, end))) {
                Some(tgid) => Ok(tgid),
                None => Err(TgidError::Invalid),
            }
        } else if end < from || end >= text.len() {
            Err(TgidError::Missing)
        } else {
            tgid_in(text, end + 1)
        }
    }
}

proof fn lemma_decimal_grows(digits: Seq<char>, n: int)
    requires
        0 <= n <= digits.len(),
        decimal(digits) is Some,
    ensures
        decimal(digits.take(n)) is Some,
        0 <= decimal(digits.take(n)).unwrap() <= decimal(digits).unwrap(),
    decreases digits.len() - n,
{
    if n == digits.len() {
        assert(digits.take(n) =~= digits);
        lemma_decimal_nonnegative(digits);
    } else {
        lemma_decimal_grows(digits, n + 1);
        assert(digits.take(n + 1).drop_last() =~= digits.take(n));
        lemma_decimal_nonnegative(digits.take(n));
    }
}

proof fn lemma_decimal_nonnegative(digits: Seq<char>)
    ensures
        decimal(digits) matches Some(v) ==> v >= 0,
    decreases digits.len(),
{
    if digits.len() > 0 {
        lemma_decimal_nonnegative(digits.drop_last());
    }
}

/// Parse a signed 32-bit decimal number out of `text[from..to]`.
fn parse_i32(text: &Vec<char>, from: usize, to: usize) -> (value: Option<i32>)
    requires
        from <= to <= text.len(),
    ensures
        value == signed_decimal(text@.subrange(from as int, to as int)),
{
    let ghost whole = text@.subrange(from as int, to as int);
    let signed = from < to && (text[from] == '+' || text[from] == '-');
    let negative = from < to && text[from] == '-';
    let start: usize = if signed {
        from + 1
    } else {
        from
    };
    let ghost digits = text@.subrange(start as int, to as int);
    proof {
        if signed {
            assert(whole.skip(1) =~= digits);
        } else {
            assert(whole =~= digits);
        }
    }
    if start == to {
        return None;
    }
    let mut value: i64 = 0;
    let mut i: usize = start;
    assert(digits.take(0) =~= Seq::<char>::empty());
    while i < to
        invariant
            from <= start <= i <= to <= text.len(),
            whole == text@.subrange(from as int, to as int),
            digits == text@.subrange(start as int, to as int),
            decimal(digits.take(i - start)) == Some(value as int),
            0 <= value <= 2_147_483_648,
            signed_decimal(whole) == (if decimal(digits) is Some && i32::MIN <= (if negative {
                -decimal(digits).unwrap()
            } else {
                decimal(digits).unwrap()
            }) <= i32::MAX {
                Some(
                    (if negative {
                        -decimal(digits).unwrap()
                    } else {
                        decimal(digits).unwrap()
                    }) as i32,
                )
            } else {
                None
            }),
        decreases to - i,
    {
        let c = text[i];
        proof {
            assert(digits.take(i + 1 - start).drop_last() =~= digits.take(i - start));
            assert(digits.take(i + 1 - start).last() == c);
            if decimal(digits) is Some {
                lemma_decimal_grows(digits, i + 1 - start);
            }
        }
        if c < '0' || c > '9' {
            return None;
        }
        value = 10 * value + (c as u32 - '0' as u32) as i64;
        if value > 2_147_483_648 {
            return None;
        }
        i += 1;
    }
    assert(digits.take(to - start) =~= digits);
    if negative {
        Some((-value) as i32)
    } else if value > 2_147_483_647 {
        None
    } else {
        Some(value as i32)
    }
}

/// The characters of a text.
fn characters(text: &str) -> (chars: Vec<char>)
    ensures
        chars@ == text@,
{
    let mut chars: Vec<char> = Vec::new();
    for c in it: text.chars()
        invariant
            it.seq() == text@,
            chars@ == text@.take(it.index()),
    {
        chars.push(c);
        assert(chars@ =~= text@.take(it.index() + 1));
    }
    assert(text@.take(text@.len() as int) =~= text@);
    chars
}

/// The thread group that a `/proc/<tid>/status` text names.
pub fn parse_tgid(status: &str) -> (tgid: Result<i32, TgidError>)
    ensures
        tgid == tgid_in(status@, 0),
{
    let text = characters(status);
    let mut from: usize = 0;
    while from < text.len()
        invariant
            text@ == status@,
            from <= text.len(),
            tgid_in(text@, 0) == tgid_in(text@, from as int),
        decreases text.len() - from,
    {
        let mut end: usize = from;
        while end < text.len() && text[end] != '\n'
            invariant
                from <= end <= text.len(),
                line_end(text@, from as int) == line_end(text@, end as int),
            decreases text.len() - end,
        {
            end += 1;
        }
        assert(line_end(text@, from as int) == end);
        if end - from >= 5 && text[from] == 'T' && text[from + 1] == 'g' && text[from + 2] == 'i'
            && text[from + 3] == 'd' && text[from + 4] == ':' {
            let mut low: usize = from + 5;
            let mut high: usize = end;
            let ghost field = trimmed(text@.subrange(from + 5, end as int));
            assert(starts_with_tgid(text@.take(end as int), from as int));
            while low < high && is_white_space(text[low])
                invariant
                    from + 5 <= low <= high == end <= text.len(),
                    field == trimmed(text@.subrange(low as int, high as int)),
                decreases high - low,
            {
                assert(text@.subrange(low as int, high as int).skip(1) =~= text@.subrange(
                    low + 1,
                    high as int,
                ));
                low += 1;
            }
            while low < high && is_white_space(text[high - 1])
                invariant
                    from + 5 <= low <= high <= text.len(),
                    low < high ==> !is_blank(text@[low as int]),
                    field == trimmed(text@.subrange(low as int, high as int)),
                decreases high - low,
            {
                assert(text@.subrange(low as int, high as int).drop_last() =~= text@.subrange(
                    low as int,
                    high - 1,
                ));
                high -= 1;
            }
            assert(field == text@.subrange(low as int, high as int));
            return match parse_i32(&text, low, high) {
                Some(tgid) => Ok(tgid),
                None => Err(TgidError::Invalid),
            };
        }
        if end == text.len() {
            return Err(TgidError::Missing);
        }
        from = end + 1;
    }
    Err(TgidError::Missing)
}

fn is_white_space(c: char) -> (blank: bool)
    ensures
        blank == is_blank(c),
{
    ('\u{9}' <= c && c <= '\u{d}') || c == ' ' || c == '\u{85}' || c == '\u{a0}' || c
        == '\u{1680}' || ('\u{2000}' <= c && c <= '\u{200a}') || c == '\u{2028}' || c
        == '\u{2029}' || c == '\u{202f}' || c == '\u{205f}' || c == '\u{3000}'
}

/// A number is read back from its decimal digits, and a signed one from its text.
pub proof fn decimal_texts_are_read_back(n: nat)
    ensures
        decimal(crate::text::decimal_text(n)) == Some(n as int),
        crate::text::decimal_text(n).len() > 0,
        forall|i: int|
            0 <= i < crate::text::decimal_text(n).len() ==> is_digit(
                #[trigger] crate::text::decimal_text(n)[i],
            ),
    decreases n,
{
    let text = crate::text::decimal_text(n);
    if n < 10 {
        reveal_with_fuel(decimal, 2);
        assert(text.drop_last() =~= Seq::empty());
    } else {
        decimal_texts_are_read_back(n / 10);
        assert(text.drop_last() =~= crate::text::decimal_text(n / 10));
    }
}

/// A signed number that fits 32 bits is read back from its text, with a plus sign before it too.
pub proof fn signed_texts_are_read_back(n: i32)
    ensures
        signed_decimal(crate::text::signed_text(n as int)) == Some(n),
        n >= 0 ==> signed_decimal(seq!['+'] + crate::text::signed_text(n as int)) == Some(n),
{
    let digits = crate::text::decimal_text(if n < 0 {
        (-n) as nat
    } else {
        n as nat
    });
    decimal_texts_are_read_back(if n < 0 {
        (-n) as nat
    } else {
        n as nat
    });
    let text = crate::text::signed_text(n as int);
    if n < 0 {
        assert(text.skip(1) =~= digits);
    } else {
        assert(is_digit(digits[0]));
        let plus = seq!['+'] + text;
        assert(plus.skip(1) =~= digits);
    }
}

/// The thread group that a status text names on its first line is read from it, whatever follows.
pub proof fn thread_groups_are_read_back(tgid: i32, rest: Seq<char>)
    ensures
        tgid_in(
            seq!['T', 'g', 'i', 'd', ':', '\t'] + crate::text::signed_text(tgid as int) + seq!['\n']
                + rest,
            0,
        ) == Ok::<i32, TgidError>(tgid),
{
    let number = crate::text::signed_text(tgid as int);
    let head = seq!['T', 'g', 'i', 'd', ':', '\t'];
    let text = head + number + seq!['\n'] + rest;
    let end = 6 + number.len();
    signed_texts_are_read_back(tgid);
    decimal_texts_are_read_back(if tgid < 0 {
        (-tgid) as nat
    } else {
        tgid as nat
    });
    let digits = crate::text::decimal_text(if tgid < 0 {
        (-tgid) as nat
    } else {
        tgid as nat
    });
    assert forall|i: int| 0 <= i < number.len() implies !is_blank(#[trigger] number[i]) && number[i]
        != '\n' by {
        if tgid < 0 {
            if i > 0 {
                assert(number[i] == digits[i - 1]);
                assert(is_digit(digits[i - 1]));
            }
        } else {
            assert(is_digit(digits[i]));
        }
    }
    assert forall|i: int| 0 <= i < end implies #[trigger] text[i] != '\n' by {
        if i >= 6 {
            assert(text[i] == number[i - 6]);
        }
    }
    assert(text[end as int] == '\n');
    lemma_line_end(text, 0, end as int);
    assert(line_end(text, 0) == end);
    let line = text.subrange(5, end as int);
    assert(line =~= seq!['\t'] + number);
    assert(line.skip(1) =~= number);
    assert(number.len() > 0);
    assert(trimmed(number) == number) by {
        assert(!is_blank(number[0]));
        assert(!is_blank(number[number.len() - 1]));
    }
    assert(is_blank('\t'));
    assert(trimmed(line) == trimmed(line.skip(1)));
}

/// The first line feed ends the line.
proof fn lemma_line_end(text: Seq<char>, from: int, end: int)
    requires
        0 <= from <= end < text.len(),
        text[end] == '\n',
        forall|i: int| from <= i < end ==> #[trigger] text[i] != '\n',
    ensures
        line_end(text, from) == end,
    decreases end - from,
{
    if from < end {
        assert(text[from] != '\n');
        lemma_line_end(text, from + 1, end);
    }
}

/// The walk over the words above a new stack goes past the arguments and their end in one step,
/// past the environment word by word up to the zero that ends it, and past the auxiliary entries
/// in pairs.
pub proof fn the_walk_goes_by_words(scan: AuxvScan, word: u64)
    requires
        scan.fits(word),
    ensures
        scan is Argc ==> scan.next(word) is Env && scan.next(word)->Env_at == scan->Argc_at + 8 * (
        word + 2),
        scan is Env && word != 0 ==> scan.next(word) is Env && scan.next(word)->Env_at
            == scan->Env_at + 8,
        scan is Env && word == 0 ==> scan.next(word) is Aux && scan.next(word)->Aux_at
            == scan->Env_at + 8 && scan.next(word)->seen == 0 && !scan.next(word)->Aux_rewritten,
        scan is Aux && word != 0 && scan->seen + 1 < MAX_AUX_ENTRIES ==> scan.next(word) is Aux
            && scan.next(word)->Aux_at == scan->Aux_at + 16 && scan.next(word)->seen == scan->seen
            + 1 && (scan.next(word)->Aux_rewritten <==> scan->Aux_rewritten || word == 33),
        scan is Aux && word == 0 ==> scan.next(word) is Done && scan.next(word)->Done_rewritten
            == scan->Aux_rewritten,
{
}

} // verus!
