use vstd::prelude::*;

use std::str::FromStr;

use crate::competition::Competition;
use crate::math::{lemma_pow10_monotone, pow10};

verus! {

/// The bytes that a `Pubkey` in base58 text stands for, if the text is one.
pub uninterp spec fn decoded_pubkey(text: Seq<u8>) -> Option<Seq<u8>>;

/// Whether the bytes are valid UTF-8 text.
pub uninterp spec fn utf8_valid(bytes: Seq<u8>) -> bool;

/// Relies on `solana_program::pubkey::Pubkey::from_str`: decodes base58 text
/// of at most 44 characters into the 32 bytes of a key.
#[verifier::external_body]
fn parse_pubkey(text: &Vec<u8>) -> (r: Option<[u8; 32]>)
    ensures
        r is Some <==> decoded_pubkey(text@) is Some,
        r matches Some(k) ==> decoded_pubkey(text@) == Some(k@),
        text@.len() > 44 ==> r is None,
{
    let s = std::str::from_utf8(text).ok()?;
    solana_program::pubkey::Pubkey::from_str(s).ok().map(|k| k.to_bytes())
}

/// The base58 text of the key with bytes `key`.
pub uninterp spec fn encoded_pubkey(key: Seq<u8>) -> Seq<u8>;

/// Relies on `Pubkey`'s `Display` (`to_string`) in `solana_program`: the
/// base58 text of a 32-byte key, at most 44 characters, which `from_str`
/// reads back into the same key.
#[verifier::external_body]
fn pubkey_text(key: &[u8; 32]) -> (r: Vec<u8>)
    ensures
        r@ == encoded_pubkey(key@),
        r@.len() <= 44,
        forall|i: int| 0 <= i < r@.len() ==> is_base58_byte(#[trigger] r@[i]),
        decoded_pubkey(r@) == Some(key@),
{
    solana_program::pubkey::Pubkey::new_from_array(*key).to_string().into_bytes()
}

/// Text of ASCII bytes only.
pub open spec fn is_ascii_text(bytes: Seq<u8>) -> bool {
    forall|i: int| 0 <= i < bytes.len() ==> #[trigger] bytes[i] < 128
}

/// A character of the base58 alphabet: digits but 0, letters but `I`, `O`
/// and `l`.
pub open spec fn is_base58_byte(b: u8) -> bool {
    (49 <= b <= 57) || (65 <= b <= 90 && b != 73 && b != 79) || (97 <= b <= 122 && b != 108)
}

/// Relies on `std::str::from_utf8`: whether the bytes are valid UTF-8, which
/// ASCII text always is.
#[verifier::external_body]
fn is_utf8(bytes: &Vec<u8>) -> (r: bool)
    ensures
        r == utf8_valid(bytes@),
        is_ascii_text(bytes@) ==> r,
{
    std::str::from_utf8(bytes).is_ok()
}

/// Why request parameters were refused.
#[derive(Clone, Copy, Debug, PartialEq, Eq, Structural)]
pub enum ParamsError {
    InvalidUtf8,
    InvalidNumber,
    InvalidPubkey,
    ProgramIdUndefined,
    WinnerMaxZero,
    PrizeMaxZero,
    CompetitionUndefined,
    SpotMarketUndefined,
    IfVaultUndefined,
}

/// The keys that the parameter text may set.
#[derive(Clone, Copy, Debug, PartialEq, Eq, Structural)]
pub enum ParamKey {
    ProgramId,
    WinnerMin,
    WinnerMax,
    PrizeMin,
    PrizeMax,
    Competition,
    SpotMarket,
    IfVault,
}

/// Parameters of a randomness request: the program to call back, the bounds
/// of the two draws, and the accounts the answer goes to.
#[derive(Clone, Copy, Debug, PartialEq, Eq)]
pub struct ContainerParams {
    pub program_id: [u8; 32],
    pub winner_min_result: u128,
    pub winner_max_result: u128,
    pub prize_min_result: u128,
    pub prize_max_result: u128,
    pub competition_key: [u8; 32],
    pub spot_market_key: [u8; 32],
    pub if_vault_key: [u8; 32],
}

/// The parameters as values: keys as byte sequences.
pub struct ParamsModel {
    pub program_id: Seq<u8>,
    pub winner_min_result: u128,
    pub winner_max_result: u128,
    pub prize_min_result: u128,
    pub prize_max_result: u128,
    pub competition_key: Seq<u8>,
    pub spot_market_key: Seq<u8>,
    pub if_vault_key: Seq<u8>,
}

impl View for ContainerParams {
    type V = ParamsModel;

    open spec fn view(&self) -> ParamsModel {
        ParamsModel {
            program_id: self.program_id@,
            winner_min_result: self.winner_min_result,
            winner_max_result: self.winner_max_result,
            prize_min_result: self.prize_min_result,
            prize_max_result: self.prize_max_result,
            competition_key: self.competition_key@,
            spot_market_key: self.spot_market_key@,
            if_vault_key: self.if_vault_key@,
        }
    }
}

/// The all-zero key, which stands for "undefined".
pub open spec fn zero_key() -> Seq<u8> {
    Seq::new(32, |i: int| 0u8)
}

/// Parameters before any field is read: zero keys and zero bounds.
pub open spec fn initial_params() -> ParamsModel {
    ParamsModel {
        program_id: zero_key(),
        winner_min_result: 0,
        winner_max_result: 0,
        prize_min_result: 0,
        prize_max_result: 0,
        competition_key: zero_key(),
        spot_market_key: zero_key(),
        if_vault_key: zero_key(),
    }
}

/// The spelling of each key.
pub open spec fn key_bytes(k: ParamKey) -> Seq<u8> {
    match k {
        ParamKey::ProgramId => seq![80u8, 73, 68],
        ParamKey::WinnerMin => seq![87u8, 73, 78, 78, 69, 82, 95, 77, 73, 78],
        ParamKey::WinnerMax => seq![87u8, 73, 78, 78, 69, 82, 95, 77, 65, 88],
        ParamKey::PrizeMin => seq![80u8, 82, 73, 90, 69, 95, 77, 73, 78],
        ParamKey::PrizeMax => seq![80u8, 82, 73, 90, 69, 95, 77, 65, 88],
        ParamKey::Competition => seq![67u8, 79, 77, 80, 69, 84, 73, 84, 73, 79, 78],
        ParamKey::SpotMarket => seq![83u8, 80, 79, 84, 95, 77, 65, 82, 75, 69, 84],
        ParamKey::IfVault => seq![73u8, 70, 95, 86, 65, 85, 76, 84],
    }
}

/// The key spelled by `word`, if any.
pub open spec fn key_of(word: Seq<u8>) -> Option<ParamKey> {
    if word == key_bytes(ParamKey::ProgramId) {
        Some(ParamKey::ProgramId)
    } else if word == key_bytes(ParamKey::WinnerMin) {
        Some(ParamKey::WinnerMin)
    } else if word == key_bytes(ParamKey::WinnerMax) {
        Some(ParamKey::WinnerMax)
    } else if word == key_bytes(ParamKey::PrizeMin) {
        Some(ParamKey::PrizeMin)
    } else if word == key_bytes(ParamKey::PrizeMax) {
        Some(ParamKey::PrizeMax)
    } else if word == key_bytes(ParamKey::Competition) {
        Some(ParamKey::Competition)
    } else if word == key_bytes(ParamKey::SpotMarket) {
        Some(ParamKey::SpotMarket)
    } else if word == key_bytes(ParamKey::IfVault) {
        Some(ParamKey::IfVault)
    } else {
        None
    }
}

/// Value of a sequence of decimal digits.
pub open spec fn digits_value(s: Seq<u8>) -> int
    decreases s.len(),
{
    if s.len() == 0 {
        0
    } else {
        digits_value(s.drop_last()) * 10 + (s.last() - 48)
    }
}

pub open spec fn is_digit(b: u8) -> bool {
    48 <= b <= 57
}

pub open spec fn all_digits(d: Seq<u8>) -> bool {
    forall|i: int| 0 <= i < d.len() ==> is_digit(#[trigger] d[i])
}

/// A decimal number as text: an optional `+`, then at least one digit, with
/// a value that fits in 128 bits.
pub open spec fn parsed_u128(s: Seq<u8>) -> Option<u128> {
    let d = if s.len() > 0 && s[0] == 43 {
        s.subrange(1, s.len() as int)
    } else {
        s
    };
    if d.len() > 0 && all_digits(d) && digits_value(d) <= u128::MAX {
        Some(digits_value(d) as u128)
    } else {
        None
    }
}

/// Position of the first `b` at or after `j` in `s`; its length when none.
pub open spec fn next_index(s: Seq<u8>, j: int, b: u8) -> int
    decreases s.len() - j,
{
    if j >= s.len() {
        s.len() as int
    } else if s[j] == b {
        j
    } else {
        next_index(s, j + 1, b)
    }
}

/// Sets the field named by `key` from its text `value`.
pub open spec fn set_field(acc: ParamsModel, key: ParamKey, value: Seq<u8>) -> Result<
    ParamsModel,
    ParamsError,
> {
    match key {
        ParamKey::ProgramId => match decoded_pubkey(value) {
            Some(k) => Ok(ParamsModel { program_id: k, ..acc }),
            None => Err(ParamsError::InvalidPubkey),
        },
        ParamKey::Competition => match decoded_pubkey(value) {
            Some(k) => Ok(ParamsModel { competition_key: k, ..acc }),
            None => Err(ParamsError::InvalidPubkey),
        },
        ParamKey::SpotMarket => match decoded_pubkey(value) {
            Some(k) => Ok(ParamsModel { spot_market_key: k, ..acc }),
            None => Err(ParamsError::InvalidPubkey),
        },
        ParamKey::IfVault => match decoded_pubkey(value) {
            Some(k) => Ok(ParamsModel { if_vault_key: k, ..acc }),
            None => Err(ParamsError::InvalidPubkey),
        },
        ParamKey::WinnerMin => match parsed_u128(value) {
            Some(v) => Ok(ParamsModel { winner_min_result: v, ..acc }),
            None => Err(ParamsError::InvalidNumber),
        },
        ParamKey::WinnerMax => match parsed_u128(value) {
            Some(v) => Ok(ParamsModel { winner_max_result: v, ..acc }),
            None => Err(ParamsError::InvalidNumber),
        },
        ParamKey::PrizeMin => match parsed_u128(value) {
            Some(v) => Ok(ParamsModel { prize_min_result: v, ..acc }),
            None => Err(ParamsError::InvalidNumber),
        },
        ParamKey::PrizeMax => match parsed_u128(value) {
            Some(v) => Ok(ParamsModel { prize_max_result: v, ..acc }),
            None => Err(ParamsError::InvalidNumber),
        },
    }
}

/// Applies one `KEY=value` entry; an entry without `=` or with an unknown key
/// is ignored. The value runs to the end of the entry and may hold `=`.
pub open spec fn apply_entry(entry: Seq<u8>, acc: ParamsModel) -> Result<ParamsModel, ParamsError> {
    let e = next_index(entry, 0, 61);
    if e >= entry.len() {
        Ok(acc)
    } else {
        match key_of(entry.subrange(0, e)) {
            None => Ok(acc),
            Some(k) => set_field(acc, k, entry.subrange(e + 1, entry.len() as int)),
        }
    }
}

/// Applies, in order, the comma-separated entries of `s` from position `j`
/// on, where the current entry started at `start`; the first bad entry fails.
pub open spec fn apply_entries(s: Seq<u8>, j: int, start: int, acc: ParamsModel) -> Result<
    ParamsModel,
    ParamsError,
>
    decreases s.len() - j,
{
    if j >= s.len() {
        apply_entry(s.subrange(start, s.len() as int), acc)
    } else if s[j] == 44 {
        match apply_entry(s.subrange(start, j), acc) {
            Ok(a) => apply_entries(s, j + 1, j + 1, a),
            Err(e) => Err(e),
        }
    } else {
        apply_entries(s, j + 1, start, acc)
    }
}

/// Why complete parameters are refused, if they are: an undefined key or a
/// zero upper bound.
pub open spec fn params_error(p: ParamsModel) -> Option<ParamsError> {
    if p.program_id == zero_key() {
        Some(ParamsError::ProgramIdUndefined)
    } else if p.winner_max_result == 0 {
        Some(ParamsError::WinnerMaxZero)
    } else if p.prize_max_result == 0 {
        Some(ParamsError::PrizeMaxZero)
    } else if p.competition_key == zero_key() {
        Some(ParamsError::CompetitionUndefined)
    } else if p.spot_market_key == zero_key() {
        Some(ParamsError::SpotMarketUndefined)
    } else if p.if_vault_key == zero_key() {
        Some(ParamsError::IfVaultUndefined)
    } else {
        None
    }
}

/// What the request parameters `bytes` decode to.
pub open spec fn decoded_params(bytes: Seq<u8>) -> Result<ParamsModel, ParamsError> {
    if !is_ascii_text(bytes) && !utf8_valid(bytes) {
        Err(ParamsError::InvalidUtf8)
    } else {
        match apply_entries(bytes, 0, 0, initial_params()) {
            Err(e) => Err(e),
            Ok(p) => match params_error(p) {
                Some(e) => Err(e),
                None => Ok(p),
            },
        }
    }
}

/// A longer run of digits is worth at least as much as its prefix.
proof fn lemma_digits_grow(d: Seq<u8>, i: int)
    requires
        0 <= i <= d.len(),
        forall|m: int| 0 <= m < d.len() ==> is_digit(#[trigger] d[m]),
    ensures
        0 <= digits_value(d.subrange(0, i)) <= digits_value(d),
    decreases d.len() - i,
{
    if i < d.len() {
        lemma_digits_grow(d, i + 1);
        assert(d.subrange(0, i + 1).drop_last() =~= d.subrange(0, i));
    } else {
        assert(d.subrange(0, i) =~= d);
        lemma_digits_nonnegative(d);
    }
}

proof fn lemma_digits_nonnegative(d: Seq<u8>)
    requires
        forall|m: int| 0 <= m < d.len() ==> is_digit(#[trigger] d[m]),
    ensures
        digits_value(d) >= 0,
    decreases d.len(),
{
    if d.len() > 0 {
        lemma_digits_nonnegative(d.drop_last());
    }
}

/// Text whose digits after the sign hold a non-digit is no number.
proof fn lemma_not_all_digits(s: Seq<u8>, d: Seq<u8>, m: int)
    requires
        d == (if s.len() > 0 && s[0] == 43 {
            s.subrange(1, s.len() as int)
        } else {
            s
        }),
        0 <= m < d.len(),
        !is_digit(d[m]),
    ensures
        parsed_u128(s) is None,
{
    if s.len() > 0 && s[0] == 43 {
        assert(d == s.subrange(1, s.len() as int));
    } else {
        assert(d == s);
    }
}

/// Text whose digits are worth more than 128 bits hold is no number.
proof fn lemma_too_large(s: Seq<u8>, d: Seq<u8>)
    requires
        d == (if s.len() > 0 && s[0] == 43 {
            s.subrange(1, s.len() as int)
        } else {
            s
        }),
        digits_value(d) > u128::MAX,
    ensures
        parsed_u128(s) is None,
{
    if s.len() > 0 && s[0] == 43 {
        assert(d == s.subrange(1, s.len() as int));
    } else {
        assert(d == s);
    }
}

/// A copy of `v[lo..hi]`.
fn copy_range(v: &Vec<u8>, lo: usize, hi: usize) -> (r: Vec<u8>)
    requires
        lo <= hi <= v@.len(),
    ensures
        r@ == v@.subrange(lo as int, hi as int),
{
    let mut r: Vec<u8> = Vec::new();
    let mut k = lo;
    while k < hi
        invariant
            lo <= k <= hi <= v@.len(),
            r@ == v@.subrange(lo as int, k as int),
        decreases hi - k,
    {
        r.push(v[k]);
        k = k + 1;
        assert(r@ =~= v@.subrange(lo as int, k as int));
    }
    r
}

/// Whether `v[lo..hi]` spells `w`.
fn range_equals(v: &Vec<u8>, lo: usize, hi: usize, w: &Vec<u8>) -> (r: bool)
    requires
        lo <= hi <= v@.len(),
    ensures
        r == (v@.subrange(lo as int, hi as int) == w@),
{
    if hi - lo != w.len() {
        return false;
    }
    let mut k: usize = 0;
    while k < w.len()
        invariant
            lo <= hi <= v@.len(),
            hi - lo == w@.len(),
            k <= w@.len(),
            forall|m: int| 0 <= m < k ==> v@[lo + m] == #[trigger] w@[m],
        decreases w@.len() - k,
    {
        if v[lo + k] != w[k] {
            assert(v@.subrange(lo as int, hi as int)[k as int] != w@[k as int]);
            return false;
        }
        k = k + 1;
    }
    assert(v@.subrange(lo as int, hi as int) =~= w@);
    true
}

/// The spelling of `k`.
fn key_word(k: ParamKey) -> (r: Vec<u8>)
    ensures
        r@ == key_bytes(k),
{
    let r = match k {
        ParamKey::ProgramId => vec![80u8, 73, 68],
        ParamKey::WinnerMin => vec![87u8, 73, 78, 78, 69, 82, 95, 77, 73, 78],
        ParamKey::WinnerMax => vec![87u8, 73, 78, 78, 69, 82, 95, 77, 65, 88],
        ParamKey::PrizeMin => vec![80u8, 82, 73, 90, 69, 95, 77, 73, 78],
        ParamKey::PrizeMax => vec![80u8, 82, 73, 90, 69, 95, 77, 65, 88],
        ParamKey::Competition => vec![67u8, 79, 77, 80, 69, 84, 73, 84, 73, 79, 78],
        ParamKey::SpotMarket => vec![83u8, 80, 79, 84, 95, 77, 65, 82, 75, 69, 84],
        ParamKey::IfVault => vec![73u8, 70, 95, 86, 65, 85, 76, 84],
    };
    assert(r@ =~= key_bytes(k));
    r
}

/// The key spelled by `v[lo..hi]`, if any.
fn find_key(v: &Vec<u8>, lo: usize, hi: usize) -> (r: Option<ParamKey>)
    requires
        lo <= hi <= v@.len(),
    ensures
        r == key_of(v@.subrange(lo as int, hi as int)),
{
    let keys = [
        ParamKey::ProgramId,
        ParamKey::WinnerMin,
        ParamKey::WinnerMax,
        ParamKey::PrizeMin,
        ParamKey::PrizeMax,
        ParamKey::Competition,
        ParamKey::SpotMarket,
        ParamKey::IfVault,
    ];
    if range_equals(v, lo, hi, &key_word(keys[0])) {
        return Some(keys[0]);
    }
    if range_equals(v, lo, hi, &key_word(keys[1])) {
        return Some(keys[1]);
    }
    if range_equals(v, lo, hi, &key_word(keys[2])) {
        return Some(keys[2]);
    }
    if range_equals(v, lo, hi, &key_word(keys[3])) {
        return Some(keys[3]);
    }
    if range_equals(v, lo, hi, &key_word(keys[4])) {
        return Some(keys[4]);
    }
    if range_equals(v, lo, hi, &key_word(keys[5])) {
        return Some(keys[5]);
    }
    if range_equals(v, lo, hi, &key_word(keys[6])) {
        return Some(keys[6]);
    }
    if range_equals(v, lo, hi, &key_word(keys[7])) {
        return Some(keys[7]);
    }
    None
}

/// Reads `v[lo..hi]` as a decimal number.
fn parse_decimal(v: &Vec<u8>, lo: usize, hi: usize) -> (r: Option<u128>)
    requires
        lo <= hi <= v@.len(),
    ensures
        r == parsed_u128(v@.subrange(lo as int, hi as int)),
{
    let ghost s = v@.subrange(lo as int, hi as int);
    let mut start = lo;
    if lo < hi && v[lo] == 43 {
        start = lo + 1;
    }
    let ghost d = v@.subrange(start as int, hi as int);
    assert(d =~= (if s.len() > 0 && s[0] == 43 {
        s.subrange(1, s.len() as int)
    } else {
        s
    }));
    if start == hi {
        return None;
    }
    let mut acc: u128 = 0;
    let mut k = start;
    while k < hi
        invariant
            lo <= start <= k <= hi <= v@.len(),
            d == v@.subrange(start as int, hi as int),
            s == v@.subrange(lo as int, hi as int),
            d == (if s.len() > 0 && s[0] == 43 {
                s.subrange(1, s.len() as int)
            } else {
                s
            }),
            forall|m: int| start <= m < k ==> is_digit(#[trigger] v@[m]),
            acc == digits_value(v@.subrange(start as int, k as int)),
        decreases hi - k,
    {
        let b = v[k];
        if b < 48 || b > 57 {
            proof {
                lemma_not_all_digits(s, d, k - start);
            }
            return None;
        }
        let digit = (b - 48) as u128;
        assert(v@.subrange(start as int, k + 1).drop_last() =~= v@.subrange(start as int, k as int));
        assert(d.subrange(0, k + 1 - start) =~= v@.subrange(start as int, k + 1));
        let next = match acc.checked_mul(10) {
            Some(x) => x.checked_add(digit),
            None => None,
        };
        match next {
            Some(x) => {
                acc = x;
            },
            None => {
                proof {
                    if forall|m: int| 0 <= m < d.len() ==> is_digit(#[trigger] d[m]) {
                        lemma_digits_grow(d, k + 1 - start);
                        lemma_too_large(s, d);
                    } else {
                        let m = choose|m: int| 0 <= m < d.len() && !is_digit(#[trigger] d[m]);
                        lemma_not_all_digits(s, d, m);
                    }
                }
                return None;
            },
        }
        k = k + 1;
    }
    assert(v@.subrange(start as int, k as int) =~= d);
    assert forall|m: int| 0 <= m < d.len() implies is_digit(#[trigger] d[m]) by {
        assert(d[m] == v@[start + m]);
    }
    Some(acc)
}

/// Position of the first `b` in `v[lo..hi]`; `hi` when none.
fn find_byte(v: &Vec<u8>, lo: usize, hi: usize, b: u8) -> (r: usize)
    requires
        lo <= hi <= v@.len(),
    ensures
        lo <= r <= hi,
        r - lo == next_index(v@.subrange(lo as int, hi as int), 0, b),
{
    let ghost s = v@.subrange(lo as int, hi as int);
    let mut k = lo;
    while k < hi
        invariant
            lo <= k <= hi <= v@.len(),
            s == v@.subrange(lo as int, hi as int),
            next_index(s, 0, b) == next_index(s, k - lo, b),
        decreases hi - k,
    {
        if v[k] == b {
            return k;
        }
        k = k + 1;
    }
    k
}

/// Whether a key is the all-zero key.
fn is_zero(k: &[u8; 32]) -> (r: bool)
    ensures
        r == (k@ == zero_key()),
{
    let mut i: usize = 0;
    while i < 32
        invariant
            i <= 32,
            k@.len() == 32,
            forall|m: int| 0 <= m < i ==> k@[m] == 0,
        decreases 32 - i,
    {
        if k[i] != 0 {
            assert(k@[i as int] != zero_key()[i as int]);
            return false;
        }
        i = i + 1;
    }
    assert(k@ =~= zero_key());
    true
}

impl ContainerParams {
    /// Sets the field named by `key` from the text `v[lo..hi]`.
    fn set_field(&mut self, key: ParamKey, v: &Vec<u8>, lo: usize, hi: usize) -> (r: Result<
        (),
        ParamsError,
    >)
        requires
            lo <= hi <= v@.len(),
        ensures
            match set_field(old(self)@, key, v@.subrange(lo as int, hi as int)) {
                Ok(m) => r is Ok && final(self)@ == m,
                Err(e) => r == Err::<(), ParamsError>(e),
            },
    {
        match key {
            ParamKey::ProgramId | ParamKey::Competition | ParamKey::SpotMarket
            | ParamKey::IfVault => {
                let text = copy_range(v, lo, hi);
                let k = match parse_pubkey(&text) {
                    Some(k) => k,
                    None => {
                        return Err(ParamsError::InvalidPubkey);
                    },
                };
                match key {
                    ParamKey::ProgramId => self.program_id = k,
                    ParamKey::Competition => self.competition_key = k,
                    ParamKey::SpotMarket => self.spot_market_key = k,
                    _ => self.if_vault_key = k,
                }
            },
            _ => {
                let n = match parse_decimal(v, lo, hi) {
                    Some(n) => n,
                    None => {
                        return Err(ParamsError::InvalidNumber);
                    },
                };
                match key {
                    ParamKey::WinnerMin => self.winner_min_result = n,
                    ParamKey::WinnerMax => self.winner_max_result = n,
                    ParamKey::PrizeMin => self.prize_min_result = n,
                    _ => self.prize_max_result = n,
                }
            },
        }
        Ok(())
    }

    /// Applies the entry `v[lo..hi]`.
    fn apply_entry(&mut self, v: &Vec<u8>, lo: usize, hi: usize) -> (r: Result<(), ParamsError>)
        requires
            lo <= hi <= v@.len(),
        ensures
            match apply_entry(v@.subrange(lo as int, hi as int), old(self)@) {
                Ok(m) => r is Ok && final(self)@ == m,
                Err(e) => r == Err::<(), ParamsError>(e),
            },
    {
        let ghost entry = v@.subrange(lo as int, hi as int);
        let e = find_byte(v, lo, hi, 61);
        if e == hi {
            return Ok(());
        }
        assert(entry.subrange(0, e - lo) =~= v@.subrange(lo as int, e as int));
        assert(entry.subrange(e - lo + 1, entry.len() as int) =~= v@.subrange(e + 1, hi as int));
        match find_key(v, lo, e) {
            None => Ok(()),
            Some(k) => self.set_field(k, v, e + 1, hi),
        }
    }

    /// Reads request parameters: comma-separated `KEY=value` entries, where
    /// `PID`, `COMPETITION`, `SPOT_MARKET` and `IF_VAULT` are base58 keys and
    /// `WINNER_MIN`, `WINNER_MAX`, `PRIZE_MIN`, `PRIZE_MAX` decimal numbers.
    /// Later entries override earlier ones and unknown keys are ignored. Every
    /// key must be defined and both upper bounds positive.
    pub fn decode(container_params: &Vec<u8>) -> (r: Result<ContainerParams, ParamsError>)
        ensures
            match decoded_params(container_params@) {
                Ok(m) => r matches Ok(p) && p@ == m,
                Err(e) => r == Err::<ContainerParams, ParamsError>(e),
            },
    {
        let v = container_params;
        if !is_utf8(v) {
            return Err(ParamsError::InvalidUtf8);
        }
        let mut acc = ContainerParams {
            program_id: [0u8; 32],
            winner_min_result: 0,
            winner_max_result: 0,
            prize_min_result: 0,
            prize_max_result: 0,
            competition_key: [0u8; 32],
            spot_market_key: [0u8; 32],
            if_vault_key: [0u8; 32],
        };
        assert(acc.program_id@ =~= zero_key());
        assert(acc.competition_key@ =~= zero_key());
        assert(acc.spot_market_key@ =~= zero_key());
        assert(acc.if_vault_key@ =~= zero_key());
        let mut start: usize = 0;
        let mut j: usize = 0;
        while j < v.len()
            invariant
                v@ == container_params@,
                is_ascii_text(v@) || utf8_valid(v@),
                start <= j <= v@.len(),
                apply_entries(v@, 0, 0, initial_params()) == apply_entries(v@, j as int, start as int, acc@),
            decreases v@.len() - j,
        {
            if v[j] == 44 {
                match acc.apply_entry(v, start, j) {
                    Ok(()) => {},
                    Err(e) => {
                        return Err(e);
                    },
                }
                start = j + 1;
            }
            j = j + 1;
        }
        match acc.apply_entry(v, start, v.len()) {
            Ok(()) => {},
            Err(e) => {
                return Err(e);
            },
        }
        if is_zero(&acc.program_id) {
            return Err(ParamsError::ProgramIdUndefined);
        }
        if acc.winner_max_result == 0 {
            return Err(ParamsError::WinnerMaxZero);
        }
        if acc.prize_max_result == 0 {
            return Err(ParamsError::PrizeMaxZero);
        }
        if is_zero(&acc.competition_key) {
            return Err(ParamsError::CompetitionUndefined);
        }
        if is_zero(&acc.spot_market_key) {
            return Err(ParamsError::SpotMarketUndefined);
        }
        if is_zero(&acc.if_vault_key) {
            return Err(ParamsError::IfVaultUndefined);
        }
        Ok(acc)
    }
}

/// `KEY=value`.
pub open spec fn entry_text(key: ParamKey, value: Seq<u8>) -> Seq<u8> {
    key_bytes(key) + seq![61u8] + value
}

/// Decimal digits of `n`, most significant first, without leading zeros.
pub open spec fn decimal_digits(n: nat) -> Seq<u8>
    decreases n,
{
    if n < 10 {
        seq![(48 + n) as u8]
    } else {
        decimal_digits(n / 10).push((48 + n % 10) as u8)
    }
}

/// A number below `10^k` has at most `k` digits.
proof fn lemma_decimal_length(n: nat, k: nat)
    requires
        k >= 1,
        n < pow10(k),
    ensures
        decimal_digits(n).len() <= k,
    decreases n,
{
    if n >= 10 {
        lemma_pow10_monotone(1, k);
        assert(k >= 2) by {
            if k == 1 {
                assert(pow10(1) == 10 * pow10(0));
            }
        }
        assert(pow10(k) == 10 * pow10((k - 1) as nat));
        assert(n / 10 < pow10((k - 1) as nat)) by {
            vstd::arithmetic::div_mod::lemma_fundamental_div_mod(n as int, 10);
        }
        lemma_decimal_length(n / 10, (k - 1) as nat);
    }
}

/// The decimal digits of `n`.
fn decimal_text(n: u128) -> (r: Vec<u8>)
    ensures
        r@ == decimal_digits(n as nat),
    decreases n,
{
    if n < 10 {
        let r = vec![(48 + n) as u8];
        assert(r@ =~= decimal_digits(n as nat));
        r
    } else {
        let mut r = decimal_text(n / 10);
        r.push((48 + n % 10) as u8);
        r
    }
}

/// The parameter text of a randomness request.
pub open spec fn request_text(
    program_id: Seq<u8>,
    winner_min: u128,
    winner_max: u128,
    prize_min: u128,
    prize_max: u128,
    competition: Seq<u8>,
    spot_market: Seq<u8>,
    if_vault: Seq<u8>,
) -> Seq<u8> {
    entry_text(ParamKey::ProgramId, encoded_pubkey(program_id)) + seq![44u8] + entry_text(
        ParamKey::WinnerMin,
        decimal_digits(winner_min as nat),
    ) + seq![44u8] + entry_text(ParamKey::WinnerMax, decimal_digits(winner_max as nat)) + seq![
        44u8,
    ] + entry_text(ParamKey::PrizeMin, decimal_digits(prize_min as nat)) + seq![44u8]
        + entry_text(ParamKey::PrizeMax, decimal_digits(prize_max as nat)) + seq![44u8]
        + entry_text(ParamKey::Competition, encoded_pubkey(competition)) + seq![44u8]
        + entry_text(ParamKey::SpotMarket, encoded_pubkey(spot_market)) + seq![44u8]
        + entry_text(ParamKey::IfVault, encoded_pubkey(if_vault))
}

/// Entries joined by commas.
pub open spec fn join_entries(es: Seq<Seq<u8>>) -> Seq<u8>
    decreases es.len(),
{
    if es.len() == 0 {
        Seq::empty()
    } else if es.len() == 1 {
        es[0]
    } else {
        es[0] + seq![44u8] + join_entries(es.drop_first())
    }
}

/// Applies the entries in order; the first bad entry fails.
pub open spec fn apply_all(es: Seq<Seq<u8>>, acc: ParamsModel) -> Result<ParamsModel, ParamsError>
    decreases es.len(),
{
    if es.len() == 0 {
        Ok(acc)
    } else {
        match apply_entry(es[0], acc) {
            Ok(a) => apply_all(es.drop_first(), a),
            Err(e) => Err(e),
        }
    }
}

/// Reading an entry that runs from `start` up to the next comma (or the end).
proof fn lemma_scan_entry(s: Seq<u8>, j: int, start: int, end: int, acc: ParamsModel)
    requires
        0 <= start <= j <= end <= s.len(),
        forall|k: int| j <= k < end ==> #[trigger] s[k] != 44,
        end < s.len() ==> s[end] == 44,
    ensures
        apply_entries(s, j, start, acc) == (if end < s.len() {
            match apply_entry(s.subrange(start, end), acc) {
                Ok(a) => apply_entries(s, end + 1, end + 1, a),
                Err(e) => Err(e),
            }
        } else {
            apply_entry(s.subrange(start, s.len() as int), acc)
        }),
    decreases end - j,
{
    if j < end {
        lemma_scan_entry(s, j + 1, start, end, acc);
    }
}

/// Reading comma-joined entries applies each of them in order.
proof fn lemma_apply_joined(s: Seq<u8>, start: int, es: Seq<Seq<u8>>, acc: ParamsModel)
    requires
        0 <= start <= s.len(),
        s.subrange(start, s.len() as int) == join_entries(es),
        es.len() >= 1,
        forall|i: int, k: int| 0 <= i < es.len() && 0 <= k < es[i].len() ==> #[trigger] es[i][k] != 44,
    ensures
        apply_entries(s, start, start, acc) == apply_all(es, acc),
    decreases es.len(),
{
    let e0 = es[0];
    let end = start + e0.len();
    if es.len() == 1 {
        assert(s.subrange(start, s.len() as int) == e0);
        assert forall|k: int| start <= k < end implies #[trigger] s[k] != 44 by {
            assert(s[k] == s.subrange(start, s.len() as int)[k - start]);
            assert(es[0][k - start] != 44);
        }
        lemma_scan_entry(s, start, start, end, acc);
        assert(s.subrange(start, s.len() as int) =~= s.subrange(start, end));
        assert(apply_entries(s, start, start, acc) == apply_entry(e0, acc));
        match apply_entry(e0, acc) {
            Ok(a) => {
                assert(es.drop_first().len() == 0);
                assert(apply_all(es.drop_first(), a) == Ok::<ParamsModel, ParamsError>(a));
            },
            Err(_) => {},
        }
    } else {
        let rest = es.drop_first();
        assert(join_entries(es) == e0 + seq![44u8] + join_entries(rest));
        let tail = s.subrange(start, s.len() as int);
        assert(tail.len() == e0.len() + 1 + join_entries(rest).len());
        assert forall|k: int| start <= k < end implies #[trigger] s[k] != 44 by {
            assert(s[k] == tail[k - start]);
            assert(tail[k - start] == e0[k - start]);
            assert(es[0][k - start] != 44);
        }
        assert(s[end] == tail[end - start]);
        assert(s.subrange(start, end) =~= e0);
        assert(tail.subrange(e0.len() as int + 1, tail.len() as int) =~= join_entries(rest));
        assert(s.subrange(end + 1, s.len() as int) =~= tail.subrange(
            e0.len() as int + 1,
            tail.len() as int,
        ));
        lemma_scan_entry(s, start, start, end, acc);
        match apply_entry(e0, acc) {
            Ok(a) => {
                assert forall|i: int, k: int| 0 <= i < rest.len() && 0 <= k < rest[i].len() implies #[trigger] rest[i][k] != 44 by {
                    assert(rest[i] == es[i + 1]);
                }
                lemma_apply_joined(s, end + 1, rest, a);
                assert(apply_entries(s, start, start, acc) == apply_entries(s, end + 1, end + 1, a));
            },
            Err(_) => {},
        }
    }
}

/// Each key is read back as itself.
proof fn lemma_key_of(k: ParamKey)
    ensures
        key_of(key_bytes(k)) == Some(k),
{
    let pid = key_bytes(ParamKey::ProgramId);
    let wmin = key_bytes(ParamKey::WinnerMin);
    let wmax = key_bytes(ParamKey::WinnerMax);
    let pmin = key_bytes(ParamKey::PrizeMin);
    let pmax = key_bytes(ParamKey::PrizeMax);
    let comp = key_bytes(ParamKey::Competition);
    let spot = key_bytes(ParamKey::SpotMarket);
    let vault = key_bytes(ParamKey::IfVault);
    assert(wmax[9] != wmin[9]);
    assert(pmax[8] != pmin[8]);
    assert(spot[0] != comp[0]);
    assert(pid.len() == 3 && wmin.len() == 10 && wmax.len() == 10 && pmin.len() == 9);
    assert(pmax.len() == 9 && comp.len() == 11 && spot.len() == 11 && vault.len() == 8);
}

/// `KEY=value` sets the field of `KEY` from `value`.
proof fn lemma_apply_entry_text(k: ParamKey, value: Seq<u8>, acc: ParamsModel)
    ensures
        apply_entry(entry_text(k, value), acc) == set_field(acc, k, value),
{
    let key = key_bytes(k);
    let e = entry_text(k, value);
    assert(forall|i: int| 0 <= i < key.len() ==> #[trigger] key[i] != 61);
    lemma_next_eq(e, key.len() as int, 0);
    assert(e.subrange(0, key.len() as int) =~= key);
    assert(e.subrange(key.len() as int + 1, e.len() as int) =~= value);
    lemma_key_of(k);
}

/// Within the key of an entry, the first `=` is the one after the key.
proof fn lemma_next_eq(e: Seq<u8>, n: int, j: int)
    requires
        0 <= j <= n < e.len(),
        e[n] == 61,
        forall|i: int| 0 <= i < n ==> #[trigger] e[i] != 61,
    ensures
        next_index(e, j, 61) == n,
    decreases n - j,
{
    if j < n {
        lemma_next_eq(e, n, j + 1);
    }
}

/// The decimal digits of `n` read back as `n`.
proof fn lemma_decimal_parses(n: u128)
    ensures
        parsed_u128(decimal_digits(n as nat)) == Some(n),
{
    lemma_decimal_digits(n as nat);
    assert(decimal_digits(n as nat)[0] != 43);
}

proof fn lemma_decimal_digits(n: nat)
    ensures
        decimal_digits(n).len() >= 1,
        all_digits(decimal_digits(n)),
        digits_value(decimal_digits(n)) == n,
    decreases n,
{
    if n >= 10 {
        lemma_decimal_digits(n / 10);
        let d = decimal_digits(n);
        assert(d.drop_last() =~= decimal_digits(n / 10));
        vstd::arithmetic::div_mod::lemma_fundamental_div_mod(n as int, 10);
        assert(d.last() == 48 + n % 10);
        assert(digits_value(d) == digits_value(decimal_digits(n / 10)) * 10 + n % 10);
        assert forall|i: int| 0 <= i < d.len() implies is_digit(#[trigger] d[i]) by {
            if i < d.len() - 1 {
                assert(d[i] == decimal_digits(n / 10)[i]);
            }
        }
    } else {
        let d = decimal_digits(n);
        assert(d.drop_last() =~= Seq::<u8>::empty());
        assert(d.last() == 48 + n);
        assert(digits_value(d) == digits_value(d.drop_last()) * 10 + (d.last() - 48));
    }
}

/// The request parameters as values.
pub open spec fn request_model(
    program_id: Seq<u8>,
    winner_min: u128,
    winner_max: u128,
    prize_min: u128,
    prize_max: u128,
    competition: Seq<u8>,
    spot_market: Seq<u8>,
    if_vault: Seq<u8>,
) -> ParamsModel {
    ParamsModel {
        program_id,
        winner_min_result: winner_min,
        winner_max_result: winner_max,
        prize_min_result: prize_min,
        prize_max_result: prize_max,
        competition_key: competition,
        spot_market_key: spot_market,
        if_vault_key: if_vault,
    }
}

/// Base58 text of a key that reads back as the key.
pub open spec fn key_text_ok(key: Seq<u8>) -> bool {
    &&& decoded_pubkey(encoded_pubkey(key)) == Some(key)
    &&& forall|i: int|
        0 <= i < encoded_pubkey(key).len() ==> is_base58_byte(#[trigger] encoded_pubkey(key)[i])
}

/// An entry of ASCII text without commas.
pub open spec fn plain_entry(e: Seq<u8>) -> bool {
    forall|i: int| 0 <= i < e.len() ==> #[trigger] e[i] != 44 && e[i] < 128
}

/// `KEY=value` is a plain entry when the value is.
proof fn lemma_entry_plain(k: ParamKey, value: Seq<u8>)
    requires
        plain_entry(value),
    ensures
        plain_entry(entry_text(k, value)),
{
    let key = key_bytes(k);
    let e = entry_text(k, value);
    assert forall|i: int| 0 <= i < e.len() implies #[trigger] e[i] != 44 && e[i] < 128 by {
        if i < key.len() {
            assert(e[i] == key[i]);
        } else if i > key.len() {
            assert(e[i] == value[i - key.len() - 1]);
        }
    }
}

/// Plain entries joined by commas are ASCII text.
proof fn lemma_join_ascii(es: Seq<Seq<u8>>)
    requires
        forall|i: int| 0 <= i < es.len() ==> plain_entry(#[trigger] es[i]),
    ensures
        is_ascii_text(join_entries(es)),
    decreases es.len(),
{
    if es.len() > 1 {
        let rest = es.drop_first();
        assert forall|i: int| 0 <= i < rest.len() implies plain_entry(#[trigger] rest[i]) by {
            assert(rest[i] == es[i + 1]);
        }
        lemma_join_ascii(rest);
        let j = join_entries(es);
        let e0 = es[0];
        assert(plain_entry(e0));
        assert forall|i: int| 0 <= i < j.len() implies #[trigger] j[i] < 128 by {
            if i < e0.len() {
                assert(j[i] == e0[i]);
            } else if i > e0.len() {
                assert(j[i] == join_entries(rest)[i - e0.len() - 1]);
            }
        }
    } else if es.len() == 1 {
        assert(plain_entry(es[0]));
    }
}

/// The request text is ASCII and reads back as the values it was made from.
#[verifier::rlimit(50)]
proof fn lemma_request_round_trip(
    program_id: Seq<u8>,
    winner_min: u128,
    winner_max: u128,
    prize_min: u128,
    prize_max: u128,
    competition: Seq<u8>,
    spot_market: Seq<u8>,
    if_vault: Seq<u8>,
)
    requires
        key_text_ok(program_id),
        key_text_ok(competition),
        key_text_ok(spot_market),
        key_text_ok(if_vault),
    ensures
        ({
            let text = request_text(
                program_id,
                winner_min,
                winner_max,
                prize_min,
                prize_max,
                competition,
                spot_market,
                if_vault,
            );
            &&& is_ascii_text(text)
            &&& apply_entries(text, 0, 0, initial_params()) == Ok::<ParamsModel, ParamsError>(
                request_model(
                    program_id,
                    winner_min,
                    winner_max,
                    prize_min,
                    prize_max,
                    competition,
                    spot_market,
                    if_vault,
                ),
            )
        }),
{
    let es0 = seq![entry_text(ParamKey::ProgramId, encoded_pubkey(program_id)), entry_text(ParamKey::WinnerMin, decimal_digits(winner_min as nat)), entry_text(ParamKey::WinnerMax, decimal_digits(winner_max as nat)), entry_text(ParamKey::PrizeMin, decimal_digits(prize_min as nat)), entry_text(ParamKey::PrizeMax, decimal_digits(prize_max as nat)), entry_text(ParamKey::Competition, encoded_pubkey(competition)), entry_text(ParamKey::SpotMarket, encoded_pubkey(spot_market)), entry_text(ParamKey::IfVault, encoded_pubkey(if_vault))];
    let es1 = seq![entry_text(ParamKey::WinnerMin, decimal_digits(winner_min as nat)), entry_text(ParamKey::WinnerMax, decimal_digits(winner_max as nat)), entry_text(ParamKey::PrizeMin, decimal_digits(prize_min as nat)), entry_text(ParamKey::PrizeMax, decimal_digits(prize_max as nat)), entry_text(ParamKey::Competition, encoded_pubkey(competition)), entry_text(ParamKey::SpotMarket, encoded_pubkey(spot_market)), entry_text(ParamKey::IfVault, encoded_pubkey(if_vault))];
    let es2 = seq![entry_text(ParamKey::WinnerMax, decimal_digits(winner_max as nat)), entry_text(ParamKey::PrizeMin, decimal_digits(prize_min as nat)), entry_text(ParamKey::PrizeMax, decimal_digits(prize_max as nat)), entry_text(ParamKey::Competition, encoded_pubkey(competition)), entry_text(ParamKey::SpotMarket, encoded_pubkey(spot_market)), entry_text(ParamKey::IfVault, encoded_pubkey(if_vault))];
    let es3 = seq![entry_text(ParamKey::PrizeMin, decimal_digits(prize_min as nat)), entry_text(ParamKey::PrizeMax, decimal_digits(prize_max as nat)), entry_text(ParamKey::Competition, encoded_pubkey(competition)), entry_text(ParamKey::SpotMarket, encoded_pubkey(spot_market)), entry_text(ParamKey::IfVault, encoded_pubkey(if_vault))];
    let es4 = seq![entry_text(ParamKey::PrizeMax, decimal_digits(prize_max as nat)), entry_text(ParamKey::Competition, encoded_pubkey(competition)), entry_text(ParamKey::SpotMarket, encoded_pubkey(spot_market)), entry_text(ParamKey::IfVault, encoded_pubkey(if_vault))];
    let es5 = seq![entry_text(ParamKey::Competition, encoded_pubkey(competition)), entry_text(ParamKey::SpotMarket, encoded_pubkey(spot_market)), entry_text(ParamKey::IfVault, encoded_pubkey(if_vault))];
    let es6 = seq![entry_text(ParamKey::SpotMarket, encoded_pubkey(spot_market)), entry_text(ParamKey::IfVault, encoded_pubkey(if_vault))];
    let es7 = seq![entry_text(ParamKey::IfVault, encoded_pubkey(if_vault))];
    assert(es0.drop_first() =~= es1);
    assert(es1.drop_first() =~= es2);
    assert(es2.drop_first() =~= es3);
    assert(es3.drop_first() =~= es4);
    assert(es4.drop_first() =~= es5);
    assert(es5.drop_first() =~= es6);
    assert(es6.drop_first() =~= es7);
    let a0 = initial_params();
    let a1 = ParamsModel { program_id: program_id, ..a0 };
    let a2 = ParamsModel { winner_min_result: winner_min, ..a1 };
    let a3 = ParamsModel { winner_max_result: winner_max, ..a2 };
    let a4 = ParamsModel { prize_min_result: prize_min, ..a3 };
    let a5 = ParamsModel { prize_max_result: prize_max, ..a4 };
    let a6 = ParamsModel { competition_key: competition, ..a5 };
    let a7 = ParamsModel { spot_market_key: spot_market, ..a6 };
    let a8 = ParamsModel { if_vault_key: if_vault, ..a7 };
    lemma_decimal_parses(winner_min);
    lemma_decimal_parses(winner_max);
    lemma_decimal_parses(prize_min);
    lemma_decimal_parses(prize_max);
    lemma_apply_entry_text(ParamKey::ProgramId, encoded_pubkey(program_id), a0);
    assert(apply_entry(es0[0], a0) == Ok::<ParamsModel, ParamsError>(a1));
    lemma_apply_entry_text(ParamKey::WinnerMin, decimal_digits(winner_min as nat), a1);
    assert(apply_entry(es1[0], a1) == Ok::<ParamsModel, ParamsError>(a2));
    lemma_apply_entry_text(ParamKey::WinnerMax, decimal_digits(winner_max as nat), a2);
    assert(apply_entry(es2[0], a2) == Ok::<ParamsModel, ParamsError>(a3));
    lemma_apply_entry_text(ParamKey::PrizeMin, decimal_digits(prize_min as nat), a3);
    assert(apply_entry(es3[0], a3) == Ok::<ParamsModel, ParamsError>(a4));
    lemma_apply_entry_text(ParamKey::PrizeMax, decimal_digits(prize_max as nat), a4);
    assert(apply_entry(es4[0], a4) == Ok::<ParamsModel, ParamsError>(a5));
    lemma_apply_entry_text(ParamKey::Competition, encoded_pubkey(competition), a5);
    assert(apply_entry(es5[0], a5) == Ok::<ParamsModel, ParamsError>(a6));
    lemma_apply_entry_text(ParamKey::SpotMarket, encoded_pubkey(spot_market), a6);
    assert(apply_entry(es6[0], a6) == Ok::<ParamsModel, ParamsError>(a7));
    lemma_apply_entry_text(ParamKey::IfVault, encoded_pubkey(if_vault), a7);
    assert(apply_entry(es7[0], a7) == Ok::<ParamsModel, ParamsError>(a8));
    assert(apply_all(es7.drop_first(), a8) == Ok::<ParamsModel, ParamsError>(a8));
    assert(apply_all(es7, a7) == Ok::<ParamsModel, ParamsError>(a8));
    assert(apply_all(es6, a6) == Ok::<ParamsModel, ParamsError>(a8));
    assert(apply_all(es5, a5) == Ok::<ParamsModel, ParamsError>(a8));
    assert(apply_all(es4, a4) == Ok::<ParamsModel, ParamsError>(a8));
    assert(apply_all(es3, a3) == Ok::<ParamsModel, ParamsError>(a8));
    assert(apply_all(es2, a2) == Ok::<ParamsModel, ParamsError>(a8));
    assert(apply_all(es1, a1) == Ok::<ParamsModel, ParamsError>(a8));
    assert(apply_all(es0, a0) == Ok::<ParamsModel, ParamsError>(a8));
    assert(a8 == request_model(
        program_id,
        winner_min,
        winner_max,
        prize_min,
        prize_max,
        competition,
        spot_market,
        if_vault,
    ));
    let text = request_text(
        program_id,
        winner_min,
        winner_max,
        prize_min,
        prize_max,
        competition,
        spot_market,
        if_vault,
    );
    lemma_join_eight(
        entry_text(ParamKey::ProgramId, encoded_pubkey(program_id)),
        entry_text(ParamKey::WinnerMin, decimal_digits(winner_min as nat)),
        entry_text(ParamKey::WinnerMax, decimal_digits(winner_max as nat)),
        entry_text(ParamKey::PrizeMin, decimal_digits(prize_min as nat)),
        entry_text(ParamKey::PrizeMax, decimal_digits(prize_max as nat)),
        entry_text(ParamKey::Competition, encoded_pubkey(competition)),
        entry_text(ParamKey::SpotMarket, encoded_pubkey(spot_market)),
        entry_text(ParamKey::IfVault, encoded_pubkey(if_vault)),
    );
    assert(text == join_entries(es0));
    lemma_key_text_plain(program_id);
    lemma_key_text_plain(competition);
    lemma_key_text_plain(spot_market);
    lemma_key_text_plain(if_vault);
    lemma_decimal_plain(winner_min as nat);
    lemma_decimal_plain(winner_max as nat);
    lemma_decimal_plain(prize_min as nat);
    lemma_decimal_plain(prize_max as nat);
    lemma_entry_plain(ParamKey::ProgramId, encoded_pubkey(program_id));
    lemma_entry_plain(ParamKey::WinnerMin, decimal_digits(winner_min as nat));
    lemma_entry_plain(ParamKey::WinnerMax, decimal_digits(winner_max as nat));
    lemma_entry_plain(ParamKey::PrizeMin, decimal_digits(prize_min as nat));
    lemma_entry_plain(ParamKey::PrizeMax, decimal_digits(prize_max as nat));
    lemma_entry_plain(ParamKey::Competition, encoded_pubkey(competition));
    lemma_entry_plain(ParamKey::SpotMarket, encoded_pubkey(spot_market));
    lemma_entry_plain(ParamKey::IfVault, encoded_pubkey(if_vault));
    assert forall|i: int| 0 <= i < es0.len() implies plain_entry(#[trigger] es0[i]) by {
        assert(es0[0] == entry_text(ParamKey::ProgramId, encoded_pubkey(program_id)));
        assert(es0[1] == entry_text(ParamKey::WinnerMin, decimal_digits(winner_min as nat)));
        assert(es0[2] == entry_text(ParamKey::WinnerMax, decimal_digits(winner_max as nat)));
        assert(es0[3] == entry_text(ParamKey::PrizeMin, decimal_digits(prize_min as nat)));
        assert(es0[4] == entry_text(ParamKey::PrizeMax, decimal_digits(prize_max as nat)));
        assert(es0[5] == entry_text(ParamKey::Competition, encoded_pubkey(competition)));
        assert(es0[6] == entry_text(ParamKey::SpotMarket, encoded_pubkey(spot_market)));
        assert(es0[7] == entry_text(ParamKey::IfVault, encoded_pubkey(if_vault)));
    }
    lemma_join_ascii(es0);
    assert forall|i: int, k: int| 0 <= i < es0.len() && 0 <= k < es0[i].len() implies #[trigger] es0[i][k] != 44 by {
        assert(plain_entry(es0[i]));
    }
    assert(text.subrange(0, text.len() as int) =~= text);
    lemma_apply_joined(text, 0, es0, initial_params());
}

/// Eight entries joined by commas, written out.
proof fn lemma_join_eight(
    e0: Seq<u8>,
    e1: Seq<u8>,
    e2: Seq<u8>,
    e3: Seq<u8>,
    e4: Seq<u8>,
    e5: Seq<u8>,
    e6: Seq<u8>,
    e7: Seq<u8>,
)
    ensures
        e0 + seq![44u8] + e1 + seq![44u8] + e2 + seq![44u8] + e3 + seq![44u8] + e4 + seq![44u8] + e5 + seq![44u8] + e6 + seq![44u8] + e7 == join_entries(
            seq![e0, e1, e2, e3, e4, e5, e6, e7],
        ),
{
    let es0 = seq![e0, e1, e2, e3, e4, e5, e6, e7];
    let es1 = seq![e1, e2, e3, e4, e5, e6, e7];
    let es2 = seq![e2, e3, e4, e5, e6, e7];
    let es3 = seq![e3, e4, e5, e6, e7];
    let es4 = seq![e4, e5, e6, e7];
    let es5 = seq![e5, e6, e7];
    let es6 = seq![e6, e7];
    let es7 = seq![e7];
    assert(es0.drop_first() =~= es1);
    assert(es1.drop_first() =~= es2);
    assert(es2.drop_first() =~= es3);
    assert(es3.drop_first() =~= es4);
    assert(es4.drop_first() =~= es5);
    assert(es5.drop_first() =~= es6);
    assert(es6.drop_first() =~= es7);
    let c = seq![44u8];
    let j7 = e7;
    let j6 = e6 + c + j7;
    let j5 = e5 + c + j6;
    let j4 = e4 + c + j5;
    let j3 = e3 + c + j4;
    let j2 = e2 + c + j3;
    let j1 = e1 + c + j2;
    let j0 = e0 + c + j1;
    assert(join_entries(es7) == j7);
    assert(join_entries(es6) == j6);
    assert(join_entries(es5) == j5);
    assert(join_entries(es4) == j4);
    assert(join_entries(es3) == j3);
    assert(join_entries(es2) == j2);
    assert(join_entries(es1) == j1);
    assert(join_entries(es0) == j0);
    let l0 = e0;
    let l1 = l0 + c + e1;
    let l2 = l1 + c + e2;
    let l3 = l2 + c + e3;
    let l4 = l3 + c + e4;
    let l5 = l4 + c + e5;
    let l6 = l5 + c + e6;
    let l7 = l6 + c + e7;
    assert(l0 + c + j1 =~= l1 + c + j2);
    assert(l1 + c + j2 =~= l2 + c + j3);
    assert(l2 + c + j3 =~= l3 + c + j4);
    assert(l3 + c + j4 =~= l4 + c + j5);
    assert(l4 + c + j5 =~= l5 + c + j6);
    assert(l5 + c + j6 =~= l6 + c + j7);
    assert(l6 + c + j7 =~= l7);
}

/// Base58 text holds neither commas nor non-ASCII bytes.
proof fn lemma_key_text_plain(key: Seq<u8>)
    requires
        key_text_ok(key),
    ensures
        plain_entry(encoded_pubkey(key)),
{
    let t = encoded_pubkey(key);
    assert forall|i: int| 0 <= i < t.len() implies #[trigger] t[i] != 44 && t[i] < 128 by {
        assert(is_base58_byte(t[i]));
    }
}

/// Decimal digits hold neither commas nor non-ASCII bytes.
proof fn lemma_decimal_plain(n: nat)
    ensures
        plain_entry(decimal_digits(n)),
{
    lemma_decimal_digits(n);
    let t = decimal_digits(n);
    assert forall|i: int| 0 <= i < t.len() implies #[trigger] t[i] != 44 && t[i] < 128 by {
        assert(is_digit(t[i]));
    }
}

/// Appends `src` to `out`.
fn push_all(out: &mut Vec<u8>, src: &Vec<u8>)
    ensures
        final(out)@ == old(out)@ + src@,
{
    let mut i: usize = 0;
    while i < src.len()
        invariant
            i <= src@.len(),
            out@ == old(out)@ + src@.subrange(0, i as int),
        decreases src@.len() - i,
    {
        out.push(src[i]);
        i = i + 1;
        assert(out@ =~= old(out)@ + src@.subrange(0, i as int));
    }
    assert(src@.subrange(0, i as int) =~= src@);
}

/// Appends `KEY=value` to `out`, with a comma before it unless it is first.
fn push_entry(out: &mut Vec<u8>, key: ParamKey, value: &Vec<u8>, first: bool)
    ensures
        final(out)@ == old(out)@ + (if first {
            Seq::<u8>::empty()
        } else {
            seq![44u8]
        }) + entry_text(key, value@),
{
    let ghost start = out@;
    if !first {
        out.push(44);
    }
    let ghost lead = out@;
    push_all(out, &key_word(key));
    out.push(61);
    push_all(out, value);
    assert(out@ =~= lead + entry_text(key, value@));
    assert(lead =~= start + (if first {
        Seq::<u8>::empty()
    } else {
        seq![44u8]
    }));
    assert(out@ =~= start + (if first {
        Seq::<u8>::empty()
    } else {
        seq![44u8]
    }) + entry_text(key, value@));
}

/// Largest parameter text that a randomness request may carry, in bytes.
pub const MAX_REQUEST_PARAM_SIZE: u32 = 512;

/// The parameter text of a randomness request: every key once, in the order
/// `PID`, `WINNER_MIN`, `WINNER_MAX`, `PRIZE_MIN`, `PRIZE_MAX`, `COMPETITION`,
/// `SPOT_MARKET`, `IF_VAULT`, keys in base58 and bounds in decimal; it always
/// fits the size limit of a request.
pub fn get_request_params(
    program_id: [u8; 32],
    winner_min: u128,
    winner_max: u128,
    prize_min: u128,
    prize_max: u128,
    competition: [u8; 32],
    spot_market: [u8; 32],
    if_vault: [u8; 32],
) -> (r: Vec<u8>)
    ensures
        r@ == request_text(
            program_id@,
            winner_min,
            winner_max,
            prize_min,
            prize_max,
            competition@,
            spot_market@,
            if_vault@,
        ),
        r@.len() <= MAX_REQUEST_PARAM_SIZE,
        program_id@ != zero_key() && competition@ != zero_key() && spot_market@ != zero_key()
            && if_vault@ != zero_key() && winner_max > 0 && prize_max > 0 ==> decoded_params(r@)
            == Ok::<ParamsModel, ParamsError>(
            request_model(
                program_id@,
                winner_min,
                winner_max,
                prize_min,
                prize_max,
                competition@,
                spot_market@,
                if_vault@,
            ),
        ),
{
    let mut out: Vec<u8> = Vec::new();
    let t1 = decimal_text(winner_min);
    let t2 = decimal_text(winner_max);
    let t3 = decimal_text(prize_min);
    let t4 = decimal_text(prize_max);
    proof {
        reveal_with_fuel(pow10, 40);
        assert(u128::MAX < pow10(39));
        lemma_decimal_length(winner_min as nat, 39);
        lemma_decimal_length(winner_max as nat, 39);
        lemma_decimal_length(prize_min as nat, 39);
        lemma_decimal_length(prize_max as nat, 39);
    }
    let k0 = pubkey_text(&program_id);
    let k1 = pubkey_text(&competition);
    let k2 = pubkey_text(&spot_market);
    let k3 = pubkey_text(&if_vault);
    push_entry(&mut out, ParamKey::ProgramId, &k0, true);
    push_entry(&mut out, ParamKey::WinnerMin, &t1, false);
    push_entry(&mut out, ParamKey::WinnerMax, &t2, false);
    push_entry(&mut out, ParamKey::PrizeMin, &t3, false);
    push_entry(&mut out, ParamKey::PrizeMax, &t4, false);
    push_entry(&mut out, ParamKey::Competition, &k1, false);
    push_entry(&mut out, ParamKey::SpotMarket, &k2, false);
    push_entry(&mut out, ParamKey::IfVault, &k3, false);
    proof {
        lemma_request_round_trip(
            program_id@,
            winner_min,
            winner_max,
            prize_min,
            prize_max,
            competition@,
            spot_market@,
            if_vault@,
        );
    }
    assert(out@ =~= request_text(
        program_id@,
        winner_min,
        winner_max,
        prize_min,
        prize_max,
        competition@,
        spot_market@,
        if_vault@,
    ));
    out
}

impl Competition {
    /// The parameters of the randomness request of the current round: a
    /// winner draw between 1 and the tickets handed out, and a prize draw
    /// between 0 and the range of the prize odds.
    pub fn randomness_request_params(
        &self,
        program_id: [u8; 32],
        competition: [u8; 32],
        spot_market: [u8; 32],
        if_vault: [u8; 32],
    ) -> (r: Vec<u8>)
        ensures
            r@ == request_text(
                program_id@,
                1,
                self.total_score_settled,
                0,
                self.prize_randomness_max,
                competition@,
                spot_market@,
                if_vault@,
            ),
            program_id@ != zero_key() && competition@ != zero_key() && spot_market@ != zero_key()
                && if_vault@ != zero_key() && self.total_score_settled > 0
                && self.prize_randomness_max > 0 ==> decoded_params(r@) == Ok::<
                ParamsModel,
                ParamsError,
            >(
                request_model(
                    program_id@,
                    1,
                    self.total_score_settled,
                    0,
                    self.prize_randomness_max,
                    competition@,
                    spot_market@,
                    if_vault@,
                ),
            ),
    {
        get_request_params(
            program_id,
            1,
            self.total_score_settled,
            0,
            self.prize_randomness_max,
            competition,
            spot_market,
            if_vault,
        )
    }
}

} // verus!
