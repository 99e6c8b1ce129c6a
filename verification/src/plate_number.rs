//! Chinese licence-plate numbers: the character sets, the rules a plate
//! number must follow, and the colour a plate number implies.

use vstd::prelude::*;
use vstd::string::*;
use crate::rng::{choose_char, random_below, random_ratio, random_u64};
use crate::text::{chars_of, decimal, decimal_string, owned, push_char, slice_contains, str_eq, string_from_chars};
use rand::rngs::ThreadRng;

verus! {

broadcast use vstd::string::group_string_axioms;

/// Province abbreviations that open an ordinary or new-energy plate.
pub const PROVINCES: [char; 31] = [
    '京', '津', '冀', '晋', '蒙', '辽', '吉', '黑', '沪', '苏', '浙', '皖', '闽', '赣', '鲁',
    '豫', '鄂', '湘', '粤', '桂', '琼', '渝', '川', '贵', '云', '藏', '陕', '甘', '青', '宁',
    '新',
];

/// Decimal digits allowed in a plate serial.
pub const DIGITS: [char; 10] = ['0', '1', '2', '3', '4', '5', '6', '7', '8', '9'];

/// Latin letters allowed on a plate: `A`..=`Z` without `I` and `O`.
pub const LETTERS: [char; 24] = [
    'A', 'B', 'C', 'D', 'E', 'F', 'G', 'H', 'J', 'K', 'L', 'M', 'N', 'P', 'Q', 'R', 'S', 'T',
    'U', 'V', 'W', 'X', 'Y', 'Z',
];

/// Characters that may close a seven-character ordinary plate.
pub const PLATE_SUFFIXES: [char; 6] = ['学', '警', '挂', '领', '港', '澳'];

/// A plate letter: an upper-case Latin letter other than `I` and `O`.
pub open spec fn letter(c: char) -> bool {
    'A' <= c <= 'Z' && c != 'I' && c != 'O'
}

/// A decimal digit.
pub open spec fn digit(c: char) -> bool {
    '0' <= c <= '9'
}

/// A digit or a plate letter.
pub open spec fn alnum(c: char) -> bool {
    digit(c) || letter(c)
}

/// A province abbreviation.
pub open spec fn province(c: char) -> bool {
    PROVINCES@.contains(c)
}

/// A character that may close an ordinary plate.
pub open spec fn plate_suffix(c: char) -> bool {
    PLATE_SUFFIXES@.contains(c)
}

/// Every character of `s` from index `from` on is a digit or plate letter.
pub open spec fn alnum_from(s: Seq<char>, from: int) -> bool {
    forall|i: int| from <= i < s.len() ==> alnum(#[trigger] s[i])
}

/// An eight-character new-energy plate: province, letter, `D` or `F`,
/// then five digits or letters.
pub open spec fn valid_green(s: Seq<char>) -> bool {
    &&& s.len() == 8
    &&& province(s[0])
    &&& letter(s[1])
    &&& (s[2] == 'D' || s[2] == 'F')
    &&& alnum_from(s, 3)
}

/// A seven-character ordinary plate. A plate opening with a letter (army)
/// or with `使` (embassy) continues with six digits or letters; otherwise it
/// opens with a province and a letter, continues with digits or letters,
/// and its last character may instead be one of [`PLATE_SUFFIXES`].
pub open spec fn valid_ordinary(s: Seq<char>) -> bool {
    &&& s.len() == 7
    &&& if letter(s[0]) {
        alnum_from(s, 1)
    } else if s[0] == '使' {
        alnum_from(s, 1)
    } else {
        &&& province(s[0])
        &&& letter(s[1])
        &&& forall|i: int| 2 <= i < 7 ==> alnum(#[trigger] s[i]) || (i == 6 && plate_suffix(s[i]))
    }
}

/// A plate number that [`validate_plate`] accepts.
pub open spec fn valid_plate(s: Seq<char>) -> bool {
    valid_green(s) || valid_ordinary(s)
}

/// The message [`validate_plate`] gives for a plate of the wrong length.
pub open spec fn length_message(n: nat) -> Seq<char> {
    "车牌长度应为 7 或 8，当前为 "@ + decimal(n)
}

/// The message [`validate_plate`] gives for a malformed new-energy plate.
pub open spec fn green_message() -> Seq<char> {
    "新能源车牌格式：省+字母+D/F+5位，如 粤AD12345 / 粤AF12K34"@
}

/// The message [`validate_plate`] gives for a malformed ordinary plate.
pub open spec fn ordinary_message() -> Seq<char> {
    "普通车牌第 2 位须为字母（发牌机关代号），格式如 粤B12345，不能是 青2XXXXX"@
}

/// What [`validate_plate`] answers for `s`: `None` when it accepts the
/// plate, the error message otherwise.
pub open spec fn plate_error(s: Seq<char>) -> Option<Seq<char>> {
    if !(7 <= s.len() <= 8) {
        Some(length_message(s.len()))
    } else if s.len() == 8 {
        if valid_green(s) {
            None
        } else {
            Some(green_message())
        }
    } else if valid_ordinary(s) {
        None
    } else {
        Some(ordinary_message())
    }
}

/// The colour implied by a plate number: eight characters mean new energy;
/// then `警` police, `使` embassy, `领`/`港`/`澳` Hong Kong and Macau,
/// `学`/`挂` yellow; an opening letter means army; anything else is blue.
pub open spec fn inferred_color(s: Seq<char>) -> Seq<char> {
    if s.len() == 8 {
        "green_car"@
    } else if s.contains('警') {
        "white"@
    } else if s.contains('使') {
        "black_shi"@
    } else if s.contains('领') || s.contains('港') || s.contains('澳') {
        "black"@
    } else if s.contains('学') || s.contains('挂') {
        "yellow"@
    } else if letter(if s.len() > 0 { s[0] } else { '粤' }) {
        "white_army"@
    } else {
        "blue"@
    }
}

/// `LETTERS` holds exactly the plate letters.
pub proof fn lemma_letters_exact()
    ensures
        forall|c: char| #[trigger] LETTERS@.contains(c) <==> letter(c),
{
    assert forall|c: char| letter(c) implies #[trigger] LETTERS@.contains(c) by {
        let v = c as u32 - 'A' as u32;
        let k: int = if v < 8 { v as int } else if v < 14 { v - 1 } else { v - 2 };
        assert(LETTERS@[k] == c);
    }
}

/// `DIGITS` holds exactly the decimal digits.
pub proof fn lemma_digits_exact()
    ensures
        forall|c: char| #[trigger] DIGITS@.contains(c) <==> digit(c),
{
    assert forall|c: char| digit(c) implies #[trigger] DIGITS@.contains(c) by {
        let k = (c as u32 - '0' as u32) as int;
        assert(DIGITS@[k] == c);
    }
}

/// Whether `ch` is a plate letter (`A`..=`Z` without `I` and `O`).
pub fn is_letter(ch: char) -> (r: bool)
    ensures
        r == letter(ch),
{
    proof {
        lemma_letters_exact();
    }
    slice_contains(&LETTERS, ch)
}

/// Whether `ch` is a decimal digit.
pub fn is_digit(ch: char) -> (r: bool)
    ensures
        r == digit(ch),
{
    proof {
        lemma_digits_exact();
    }
    slice_contains(&DIGITS, ch)
}

/// Whether `ch` is a province abbreviation.
pub fn is_province(ch: char) -> (r: bool)
    ensures
        r == province(ch),
{
    slice_contains(&PROVINCES, ch)
}

/// Whether `ch` is a digit or a plate letter.
pub fn is_alnum_plate_char(ch: char) -> (r: bool)
    ensures
        r == alnum(ch),
{
    is_digit(ch) || is_letter(ch)
}

/// Whether every character of `chars` from `from` on is a digit or letter.
fn all_alnum_from(chars: &[char], from: usize) -> (r: bool)
    ensures
        r == alnum_from(chars@, from as int),
{
    let mut i = from;
    while i < chars.len()
        invariant
            from <= i || chars.len() <= i,
            forall|j: int| from <= j < i && j < chars.len() ==> alnum(#[trigger] chars@[j]),
        decreases chars.len() - i,
    {
        if !is_alnum_plate_char(chars[i]) {
            return false;
        }
        i = i + 1;
    }
    true
}

/// Whether `chars` form an eight-character new-energy plate.
fn green_chars_valid(chars: &[char]) -> (r: bool)
    ensures
        r == valid_green(chars@),
{
    if chars.len() != 8 {
        return false;
    }
    if !is_province(chars[0]) || !is_letter(chars[1]) {
        return false;
    }
    if chars[2] != 'D' && chars[2] != 'F' {
        return false;
    }
    all_alnum_from(chars, 3)
}

/// Whether `chars` form a seven-character ordinary plate.
fn ordinary_chars_valid(chars: &[char]) -> (r: bool)
    ensures
        r == valid_ordinary(chars@),
{
    if chars.len() != 7 {
        return false;
    }
    if is_letter(chars[0]) {
        return all_alnum_from(chars, 1);
    }
    if chars[0] == '使' {
        return all_alnum_from(chars, 1);
    }
    if !is_province(chars[0]) || !is_letter(chars[1]) {
        return false;
    }
    let mut i: usize = 2;
    while i < 7
        invariant
            chars.len() == 7,
            2 <= i <= 7,
            forall|j: int|
                2 <= j < i ==> alnum(#[trigger] chars@[j]) || (j == 6 && plate_suffix(chars@[j])),
        decreases 7 - i,
    {
        let ch = chars[i];
        let last = i == 6;
        if !is_alnum_plate_char(ch) {
            if !(last && slice_contains(&PLATE_SUFFIXES, ch)) {
                return false;
            }
        }
        i = i + 1;
    }
    true
}

/// Whether `plate` is an eight-character new-energy plate: province,
/// letter, `D` or `F` in third place, then five digits or letters.
pub fn is_valid_green_plate(plate: &str) -> (r: bool)
    ensures
        r == valid_green(plate@),
{
    let chars = chars_of(plate);
    green_chars_valid(chars.as_slice())
}

/// Whether `plate` is a seven-character ordinary plate.
pub fn is_valid_ordinary_plate(plate: &str) -> (r: bool)
    ensures
        r == valid_ordinary(plate@),
{
    let chars = chars_of(plate);
    ordinary_chars_valid(chars.as_slice())
}

/// The colour key implied by `plate` (see [`inferred_color`]).
pub fn infer_bg_color(plate: &str) -> (r: String)
    ensures
        r@ == inferred_color(plate@),
{
    let chars = chars_of(plate);
    let cs = chars.as_slice();
    if cs.len() == 8 {
        return owned("green_car");
    }
    if slice_contains(cs, '警') {
        return owned("white");
    }
    if slice_contains(cs, '使') {
        return owned("black_shi");
    }
    if slice_contains(cs, '领') || slice_contains(cs, '港') || slice_contains(cs, '澳') {
        return owned("black");
    }
    if slice_contains(cs, '学') || slice_contains(cs, '挂') {
        return owned("yellow");
    }
    let first = if cs.len() > 0 { cs[0] } else { '粤' };
    if is_letter(first) {
        return owned("white_army");
    }
    owned("blue")
}

/// Checks a plate number: it must have seven or eight characters; eight
/// must form a new-energy plate, seven an ordinary one. The error is the
/// message shown to the user.
pub fn validate_plate(plate: &str) -> (r: Result<(), String>)
    ensures
        r is Ok <==> plate_error(plate@) is None,
        r matches Err(m) ==> plate_error(plate@) == Some(m@),
        r is Ok <==> valid_plate(plate@),
{
    let chars = chars_of(plate);
    let n = chars.len();
    if !(7 <= n && n <= 8) {
        let mut m = owned("车牌长度应为 7 或 8，当前为 ");
        let digits = decimal_string(n as u64);
        m.append(digits.as_str());
        return Err(m);
    }
    if n == 8 {
        if !green_chars_valid(chars.as_slice()) {
            return Err(owned("新能源车牌格式：省+字母+D/F+5位，如 粤AD12345 / 粤AF12K34"));
        }
        return Ok(());
    }
    if !ordinary_chars_valid(chars.as_slice()) {
        return Err(
            owned("普通车牌第 2 位须为字母（发牌机关代号），格式如 粤B12345，不能是 青2XXXXX"),
        );
    }
    Ok(())
}

} // verus!

verus! {

// ---------------------------------------------------------------------------
// Random plate numbers
// ---------------------------------------------------------------------------

/// Every character is a digit or letter, and no two of them are letters.
pub open spec fn mostly_digits(t: Seq<char>) -> bool {
    &&& forall|i: int| 0 <= i < t.len() ==> alnum(#[trigger] t[i])
    &&& forall|i: int, j: int|
        0 <= i < t.len() && 0 <= j < t.len() && i != j ==> digit(#[trigger] t[i]) || digit(
            #[trigger] t[j],
        )
}

/// A five-character ordinary serial: digits with at most one letter.
pub open spec fn ordinary_serial(t: Seq<char>) -> bool {
    t.len() == 5 && mostly_digits(t)
}

/// A five-character new-energy serial: any digits and letters.
pub open spec fn green_serial(t: Seq<char>) -> bool {
    t.len() == 5 && alnum_from(t, 0)
}

/// What [`generate_blue`] can return for `length`: a province, a letter,
/// then an ordinary serial when `length` is seven, else digits and letters.
pub open spec fn blue_of_length(s: Seq<char>, length: nat) -> bool {
    &&& s.len() == length
    &&& province(s[0])
    &&& letter(s[1])
    &&& if length == 7 {
        ordinary_serial(s.subrange(2, 7))
    } else {
        alnum_from(s, 2)
    }
}

/// A seven-character random ordinary plate.
pub open spec fn random_blue(s: Seq<char>) -> bool {
    blue_of_length(s, 7)
}

/// A random ordinary plate whose last serial character was replaced by `suffix`.
pub open spec fn suffixed_blue(s: Seq<char>, suffix: char) -> bool {
    &&& s.len() == 7
    &&& province(s[0])
    &&& letter(s[1])
    &&& mostly_digits(s.subrange(2, 6))
    &&& s[6] == suffix
}

/// What [`generate_random`] can return as plate for a requested colour.
pub open spec fn styled_outcome(color: Seq<char>, s: Seq<char>) -> bool {
    if color == "green_car"@ || color == "green_truck"@ {
        valid_green(s)
    } else if color == "yellow"@ {
        random_blue(s) || suffixed_blue(s, '学')
    } else if color == "white"@ {
        suffixed_blue(s, '警')
    } else if color == "black"@ {
        &&& s.len() == 7
        &&& s[0] == '粤'
        &&& letter(s[1])
        &&& mostly_digits(s.subrange(2, 6))
        &&& (s[6] == '港' || s[6] == '澳')
    } else if color == "black_shi"@ {
        &&& s.len() == 7
        &&& s[0] == '使'
        &&& letter(s[1])
        &&& ordinary_serial(s.subrange(2, 7))
    } else {
        random_blue(s)
    }
}

/// What [`generate_random`] can return: with a requested colour, that
/// colour and a plate of its style; without one, a new-energy plate coloured
/// `green_car` or an ordinary plate with its inferred colour.
pub open spec fn random_outcome(prefer: Option<Seq<char>>, plate: Seq<char>, color: Seq<char>) -> bool {
    match prefer {
        Some(c) => color == c && styled_outcome(c, plate),
        None => (valid_green(plate) && color == "green_car"@) || (random_blue(plate) && color
            == inferred_color(plate)),
    }
}

/// How the five serial characters of a plate are laid out.
pub enum SerialPattern {
    /// Five digits.
    AllDigits,
    /// A letter, then four digits.
    LeadingLetter,
    /// Digits with one letter at a drawn position.
    OneLetter,
    /// Any digits and letters.
    AllAlnum,
}

/// What one serial position may hold.
#[derive(Clone, Copy)]
pub enum SlotKind {
    Digit,
    Letter,
    Alnum,
}

/// A uniform draw `roll < 2^53` stands for the fraction `roll / 2^53`. An
/// ordinary serial is all digits when that fraction is below 0.55; this is
/// 0.55 (as the nearest `f64`) times 2^53.
pub const ORDINARY_ALL_DIGITS_BELOW: u64 = 4953959590107546;

/// An ordinary serial opens with a letter when the fraction is below 0.85.
pub const ORDINARY_LEADING_LETTER_BELOW: u64 = 7656119366529843;

/// A new-energy serial is all digits when the fraction is below 0.7.
pub const GREEN_ALL_DIGITS_BELOW: u64 = 6305039478318694;

/// A new-energy serial holds one letter when the fraction is below 0.9.
pub const GREEN_ONE_LETTER_BELOW: u64 = 8106479329266893;

/// The layout of an ordinary serial for a draw `roll`.
pub open spec fn ordinary_pattern(roll: u64) -> SerialPattern {
    if roll < ORDINARY_ALL_DIGITS_BELOW {
        SerialPattern::AllDigits
    } else if roll < ORDINARY_LEADING_LETTER_BELOW {
        SerialPattern::LeadingLetter
    } else {
        SerialPattern::OneLetter
    }
}

/// The layout of a new-energy serial for a draw `roll`.
pub open spec fn green_pattern(roll: u64) -> SerialPattern {
    if roll < GREEN_ALL_DIGITS_BELOW {
        SerialPattern::AllDigits
    } else if roll < GREEN_ONE_LETTER_BELOW {
        SerialPattern::OneLetter
    } else {
        SerialPattern::AllAlnum
    }
}

/// The layout of an ordinary serial for a draw `roll`.
pub fn ordinary_serial_pattern(roll: u64) -> (p: SerialPattern)
    ensures
        p == ordinary_pattern(roll),
{
    if roll < ORDINARY_ALL_DIGITS_BELOW {
        SerialPattern::AllDigits
    } else if roll < ORDINARY_LEADING_LETTER_BELOW {
        SerialPattern::LeadingLetter
    } else {
        SerialPattern::OneLetter
    }
}

/// The layout of a new-energy serial for a draw `roll`.
pub fn green_serial_pattern(roll: u64) -> (p: SerialPattern)
    ensures
        p == green_pattern(roll),
{
    if roll < GREEN_ALL_DIGITS_BELOW {
        SerialPattern::AllDigits
    } else if roll < GREEN_ONE_LETTER_BELOW {
        SerialPattern::OneLetter
    } else {
        SerialPattern::AllAlnum
    }
}

/// What serial position `i` may hold under `pattern`, with the letter of
/// [`SerialPattern::OneLetter`] at `letter_pos`.
pub open spec fn pattern_slot(pattern: SerialPattern, letter_pos: int, i: int) -> SlotKind {
    match pattern {
        SerialPattern::AllDigits => SlotKind::Digit,
        SerialPattern::LeadingLetter => if i == 0 {
            SlotKind::Letter
        } else {
            SlotKind::Digit
        },
        SerialPattern::OneLetter => if i == letter_pos {
            SlotKind::Letter
        } else {
            SlotKind::Digit
        },
        SerialPattern::AllAlnum => SlotKind::Alnum,
    }
}

/// Whether `pattern` needs a drawn letter position.
pub open spec fn needs_letter_pos(pattern: SerialPattern) -> bool {
    pattern is OneLetter
}

/// The five serial positions under `pattern`.
pub fn serial_slots(pattern: &SerialPattern, letter_pos: usize) -> (r: Vec<SlotKind>)
    ensures
        r.len() == 5,
        forall|i: int| 0 <= i < 5 ==> r@[i] == pattern_slot(*pattern, letter_pos as int, i),
{
    let mut out: Vec<SlotKind> = Vec::new();
    let mut i: usize = 0;
    while i < 5
        invariant
            i <= 5,
            out.len() == i,
            forall|j: int| 0 <= j < i ==> out@[j] == pattern_slot(*pattern, letter_pos as int, j),
        decreases 5 - i,
    {
        let k = match pattern {
            SerialPattern::AllDigits => SlotKind::Digit,
            SerialPattern::LeadingLetter => if i == 0 {
                SlotKind::Letter
            } else {
                SlotKind::Digit
            },
            SerialPattern::OneLetter => if i == letter_pos {
                SlotKind::Letter
            } else {
                SlotKind::Digit
            },
            SerialPattern::AllAlnum => SlotKind::Alnum,
        };
        out.push(k);
        i = i + 1;
    }
    out
}

/// Whether `c` may stand in a position of kind `k`.
pub open spec fn slot_admits(k: SlotKind, c: char) -> bool {
    match k {
        SlotKind::Digit => digit(c),
        SlotKind::Letter => letter(c),
        SlotKind::Alnum => alnum(c),
    }
}

/// A random digit.
fn random_digit(rng: &mut ThreadRng) -> (c: char)
    ensures
        digit(c),
{
    proof {
        lemma_digits_exact();
    }
    choose_char(&DIGITS, rng).unwrap()
}

/// A random plate letter.
fn random_letter(rng: &mut ThreadRng) -> (c: char)
    ensures
        letter(c),
{
    proof {
        lemma_letters_exact();
    }
    choose_char(&LETTERS, rng).unwrap()
}

/// The digits followed by the plate letters.
fn alnum_pool() -> (r: Vec<char>)
    ensures
        r@ == DIGITS@ + LETTERS@,
{
    let mut pool: Vec<char> = Vec::new();
    let mut i: usize = 0;
    while i < DIGITS.len()
        invariant
            i <= DIGITS@.len(),
            pool@ == DIGITS@.take(i as int),
        decreases DIGITS.len() - i,
    {
        pool.push(DIGITS[i]);
        assert(DIGITS@.take(i as int).push(DIGITS@[i as int]) =~= DIGITS@.take(i + 1));
        i = i + 1;
    }
    let mut j: usize = 0;
    while j < LETTERS.len()
        invariant
            j <= LETTERS@.len(),
            pool@ == DIGITS@ + LETTERS@.take(j as int),
        decreases LETTERS.len() - j,
    {
        pool.push(LETTERS[j]);
        assert(LETTERS@.take(j as int).push(LETTERS@[j as int]) =~= LETTERS@.take(j + 1));
        j = j + 1;
    }
    assert(DIGITS@.take(10) =~= DIGITS@);
    assert(LETTERS@.take(24) =~= LETTERS@);
    pool
}

/// A random digit or plate letter.
fn random_alnum(rng: &mut ThreadRng) -> (c: char)
    ensures
        alnum(c),
{
    let pool = alnum_pool();
    proof {
        lemma_digits_exact();
        lemma_letters_exact();
        assert(pool@[0] == '0');
    }
    let c = choose_char(pool.as_slice(), rng).unwrap();
    proof {
        let k = choose|k: int| 0 <= k < pool@.len() && pool@[k] == c;
        if k < 10 {
            assert(DIGITS@[k] == c);
        } else {
            assert(LETTERS@[k - 10] == c);
        }
    }
    c
}

/// A random character that position kind `k` admits.
fn random_for_slot(k: SlotKind, rng: &mut ThreadRng) -> (c: char)
    ensures
        slot_admits(k, c),
{
    match k {
        SlotKind::Digit => random_digit(rng),
        SlotKind::Letter => random_letter(rng),
        SlotKind::Alnum => random_alnum(rng),
    }
}

/// Random characters, one for each position in `slots`, appended to `s`.
fn push_slots(s: &mut String, slots: &[SlotKind], rng: &mut ThreadRng)
    ensures
        final(s)@.len() == old(s)@.len() + slots.len(),
        final(s)@.subrange(0, old(s)@.len() as int) == old(s)@,
        forall|i: int|
            0 <= i < slots.len() ==> slot_admits(slots@[i], #[trigger] final(s)@[old(s)@.len() + i]),
{
    let ghost start = s@;
    let mut i: usize = 0;
    while i < slots.len()
        invariant
            i <= slots.len(),
            s@.len() == start.len() + i,
            s@.subrange(0, start.len() as int) == start,
            forall|j: int| 0 <= j < i ==> slot_admits(slots@[j], #[trigger] s@[start.len() + j]),
        decreases slots.len() - i,
    {
        let c = random_for_slot(slots[i], rng);
        push_char(s, c);
        i = i + 1;
    }
}

/// A fraction drawn as a 53-bit integer, as `Rng::random::<f64>` draws it.
fn random_roll(rng: &mut ThreadRng) -> (r: u64)
    ensures
        r < 0x20_0000_0000_0000u64,
{
    let x = random_u64(rng);
    assert((x >> 11u64) < 0x20_0000_0000_0000u64) by (bit_vector);
    x >> 11
}

/// The five serial characters of an ordinary plate: mostly digits, so
/// that plate readers accept it (all digits, a leading letter, or one
/// letter at a random position).
fn generate_serial5(rng: &mut ThreadRng) -> (s: String)
    ensures
        ordinary_serial(s@),
{
    let roll = random_roll(rng);
    let pattern = ordinary_serial_pattern(roll);
    let letter_pos = match pattern {
        SerialPattern::OneLetter => random_below(rng, 5),
        _ => 0,
    };
    let slots = serial_slots(&pattern, letter_pos);
    let mut s = String::new();
    push_slots(&mut s, slots.as_slice(), rng);
    proof {
        assert forall|i: int| 0 <= i < 5 implies slot_admits(
            pattern_slot(pattern, letter_pos as int, i),
            #[trigger] s@[i],
        ) by {
            assert(s@[0 + i] == s@[i]);
        }
        assert forall|i: int| 0 <= i < s@.len() implies alnum(#[trigger] s@[i]) by {
            assert(slot_admits(pattern_slot(pattern, letter_pos as int, i), s@[i]));
        }
        assert forall|i: int, j: int|
            0 <= i < s@.len() && 0 <= j < s@.len() && i != j implies digit(#[trigger] s@[i])
            || digit(#[trigger] s@[j]) by {
            assert(slot_admits(pattern_slot(pattern, letter_pos as int, i), s@[i]));
            assert(slot_admits(pattern_slot(pattern, letter_pos as int, j), s@[j]));
        }
    }
    s
}

/// The five serial characters after `D`/`F` on a new-energy plate: all
/// digits, one letter, or any digits and letters.
fn generate_green_serial5(rng: &mut ThreadRng) -> (s: String)
    ensures
        green_serial(s@),
{
    let roll = random_roll(rng);
    let pattern = green_serial_pattern(roll);
    let letter_pos = match pattern {
        SerialPattern::OneLetter => random_below(rng, 5),
        _ => 0,
    };
    let slots = serial_slots(&pattern, letter_pos);
    let mut s = String::new();
    push_slots(&mut s, slots.as_slice(), rng);
    proof {
        assert forall|i: int| 0 <= i < s@.len() implies alnum(#[trigger] s@[i]) by {
            assert(s@[0 + i] == s@[i]);
            assert(slot_admits(pattern_slot(pattern, letter_pos as int, i), s@[i]));
        }
    }
    s
}

/// A random ordinary plate number of `length` characters: a province, an
/// issuing-office letter, then a mostly-digit serial when `length` is seven
/// and random digits and letters otherwise. `length` must be at least 2.
pub fn generate_blue(rng: &mut ThreadRng, length: usize) -> (s: String)
    requires
        length >= 2,
    ensures
        blue_of_length(s@, length as nat),
{
    let mut s = String::new();
    let p = choose_char(&PROVINCES, rng).unwrap();
    push_char(&mut s, p);
    let l = random_letter(rng);
    push_char(&mut s, l);
    if length == 7 {
        let serial = generate_serial5(rng);
        s.append(serial.as_str());
        assert(s@.subrange(2, 7) =~= serial@);
    } else {
        let mut i: usize = 2;
        while i < length
            invariant
                2 <= i <= length,
                s@.len() == i,
                province(s@[0]),
                letter(s@[1]),
                alnum_from(s@, 2),
            decreases length - i,
        {
            let c = random_alnum(rng);
            push_char(&mut s, c);
            i = i + 1;
        }
    }
    s
}

/// A random new-energy plate number: province, letter, `D` or `F`, then a
/// five-character serial.
pub fn generate_green_car(rng: &mut ThreadRng) -> (s: String)
    ensures
        valid_green(s@),
{
    let mut s = String::new();
    let p = choose_char(&PROVINCES, rng).unwrap();
    push_char(&mut s, p);
    let l = random_letter(rng);
    push_char(&mut s, l);
    let df: [char; 2] = ['D', 'F'];
    let e = choose_char(&df, rng).unwrap();
    push_char(&mut s, e);
    let serial = generate_green_serial5(rng);
    let ghost head = s@;
    s.append(serial.as_str());
    proof {
        assert(df@.contains(e));
        assert forall|i: int| 3 <= i < s@.len() implies alnum(#[trigger] s@[i]) by {
            assert(s@[i] == serial@[i - 3]);
        }
    }
    s
}

/// What a colour style makes of a random ordinary plate `blue`: yellow
/// replaces the last character by `学` when `coin` is up; white replaces it
/// by `警`; black keeps the letter and first four serial characters behind
/// `粤` and closes with `港` (coin up) or `澳`; black_shi puts `使` in place
/// of the province; every other colour keeps the plate.
pub open spec fn styled_plate(color: Seq<char>, blue: Seq<char>, coin: bool) -> Seq<char> {
    if color == "yellow"@ {
        if coin {
            blue.take(6).push('学')
        } else {
            blue
        }
    } else if color == "white"@ {
        blue.take(6).push('警')
    } else if color == "black"@ {
        seq!['粤'] + blue.subrange(1, 6) + seq![if coin { '港' } else { '澳' }]
    } else if color == "black_shi"@ {
        seq!['使'] + blue.subrange(1, 7)
    } else {
        blue
    }
}

/// The plate that colour style `color` makes of the seven-character
/// ordinary plate `blue`, with `coin` for the styles that draw one.
pub fn style_plate(color: &str, blue: String, coin: bool) -> (r: String)
    requires
        blue@.len() == 7,
    ensures
        r@ == styled_plate(color@, blue@, coin),
{
    let chars = chars_of(blue.as_str());
    let cs = chars.as_slice();
    if str_eq(color, "yellow") {
        if coin {
            let mut r = string_from_chars(&cs[0..6]);
            push_char(&mut r, '学');
            assert(r@ =~= blue@.take(6).push('学'));
            r
        } else {
            blue
        }
    } else if str_eq(color, "white") {
        let mut r = string_from_chars(&cs[0..6]);
        push_char(&mut r, '警');
        assert(r@ =~= blue@.take(6).push('警'));
        r
    } else if str_eq(color, "black") {
        let mut r = String::new();
        push_char(&mut r, '粤');
        let middle = string_from_chars(&cs[1..6]);
        r.append(middle.as_str());
        push_char(
            &mut r,
            if coin {
                '港'
            } else {
                '澳'
            },
        );
        assert(r@ =~= seq!['粤'] + blue@.subrange(1, 6) + seq![
            if coin {
                '港'
            } else {
                '澳'
            },
        ]);
        r
    } else if str_eq(color, "black_shi") {
        let mut r = String::new();
        push_char(&mut r, '使');
        let rest = string_from_chars(&cs[1..7]);
        r.append(rest.as_str());
        assert(r@ =~= seq!['使'] + blue@.subrange(1, 7));
        r
    } else {
        blue
    }
}

/// `mostly_digits` holds of every contiguous part.
proof fn lemma_mostly_digits_sub(t: Seq<char>, a: int, b: int)
    requires
        mostly_digits(t),
        0 <= a <= b <= t.len(),
    ensures
        mostly_digits(t.subrange(a, b)),
{
    let u = t.subrange(a, b);
    assert forall|i: int| 0 <= i < u.len() implies alnum(#[trigger] u[i]) by {
        assert(u[i] == t[a + i]);
    }
    assert forall|i: int, j: int|
        0 <= i < u.len() && 0 <= j < u.len() && i != j implies digit(#[trigger] u[i]) || digit(
        #[trigger] u[j],
    ) by {
        assert(u[i] == t[a + i]);
        assert(u[j] == t[a + j]);
    }
}

/// Styling a random ordinary plate in a colour other than the new-energy
/// ones gives a plate of that colour's style.
pub proof fn lemma_styled_outcome(color: Seq<char>, blue: Seq<char>, coin: bool)
    requires
        random_blue(blue),
        color != "green_car"@,
        color != "green_truck"@,
    ensures
        styled_outcome(color, styled_plate(color, blue, coin)),
{
    let s = styled_plate(color, blue, coin);
    reveal_strlit("yellow");
    reveal_strlit("white");
    reveal_strlit("black");
    reveal_strlit("black_shi");
    assert("yellow"@.len() == 6 && "white"@.len() == 5 && "black"@.len() == 5);
    assert("black_shi"@.len() == 9 && "black"@[0] != "white"@[0]);
    lemma_mostly_digits_sub(blue.subrange(2, 7), 0, 4);
    if color == "yellow"@ || color == "white"@ || color == "black"@ {
        assert(s.subrange(2, 6) =~= blue.subrange(2, 7).subrange(0, 4));
    }
    if color == "black_shi"@ {
        assert(s.subrange(2, 7) =~= blue.subrange(2, 7));
    }
}

/// Random plate number and colour. With `prefer_color`, the plate is made
/// in that colour's style and the colour is returned as given; without one,
/// a new-energy plate (about 35%) or an ordinary plate with its inferred
/// colour.
pub fn generate_random(rng: &mut ThreadRng, prefer_color: Option<&str>) -> (r: (String, String))
    ensures
        random_outcome(
            match prefer_color {
                Some(c) => Some(c@),
                None => None,
            },
            r.0@,
            r.1@,
        ),
        match prefer_color {
            Some(c) => c@ != "green_car"@ && c@ != "green_truck"@ ==> exists|
                b: Seq<char>,
                coin: bool,
            | random_blue(b) && r.0@ == #[trigger] styled_plate(c@, b, coin),
            None => true,
        },
{
    if let Some(color) = prefer_color {
        let plate = if str_eq(color, "green_car") || str_eq(color, "green_truck") {
            generate_green_car(rng)
        } else {
            let blue = generate_blue(rng, 7);
            let coin = if str_eq(color, "yellow") {
                random_ratio(rng, 3, 10)
            } else if str_eq(color, "black") {
                random_ratio(rng, 1, 2)
            } else {
                false
            };
            proof {
                lemma_styled_outcome(color@, blue@, coin);
            }
            let ghost b = blue@;
            let styled = style_plate(color, blue, coin);
            assert(random_blue(b) && styled@ == styled_plate(color@, b, coin));
            styled
        };
        return (plate, owned(color));
    }
    if random_ratio(rng, 7, 20) {
        let plate = generate_green_car(rng);
        return (plate, owned("green_car"));
    }
    let plate = generate_blue(rng, 7);
    let color = infer_bg_color(plate.as_str());
    (plate, color)
}

} // verus!

verus! {

// ---------------------------------------------------------------------------
// Laws
// ---------------------------------------------------------------------------

/// A province abbreviation is neither a digit, nor a letter, nor one of
/// the characters that mark a special plate.
pub proof fn lemma_province_is_plain(c: char)
    requires
        province(c),
    ensures
        !letter(c),
        !digit(c),
        c != '使',
        c != '警',
        c != '领',
        c != '港',
        c != '澳',
        c != '学',
        c != '挂',
{
    let k = choose|k: int| 0 <= k < PROVINCES@.len() && PROVINCES@[k] == c;
    assert(PROVINCES@[k] as u32 >= 0x4e00);
}

/// A random ordinary plate is a valid ordinary plate.
proof fn lemma_random_blue_valid(s: Seq<char>)
    requires
        random_blue(s),
    ensures
        valid_ordinary(s),
{
    lemma_province_is_plain(s[0]);
    assert forall|i: int| 2 <= i < 7 implies alnum(#[trigger] s[i]) || (i == 6 && plate_suffix(
        s[i],
    )) by {
        assert(s.subrange(2, 7)[i - 2] == s[i]);
    }
}

/// Positions two to five of a suffixed plate hold digits or letters.
proof fn lemma_suffixed_middle(s: Seq<char>)
    requires
        s.len() == 7,
        mostly_digits(s.subrange(2, 6)),
    ensures
        forall|i: int| 2 <= i < 6 ==> alnum(#[trigger] s[i]),
{
    assert forall|i: int| 2 <= i < 6 implies alnum(#[trigger] s[i]) by {
        assert(s.subrange(2, 6)[i - 2] == s[i]);
    }
}

/// Every plate number that [`generate_random`] can return passes
/// [`validate_plate`], whatever colour was requested.
pub proof fn lemma_generated_plates_are_valid(
    prefer: Option<Seq<char>>,
    plate: Seq<char>,
    color: Seq<char>,
)
    requires
        random_outcome(prefer, plate, color),
    ensures
        valid_plate(plate),
        plate_error(plate) is None,
        plate.len() == 7 || plate.len() == 8,
{
    let s = plate;
    if valid_green(s) {
    } else if random_blue(s) {
        lemma_random_blue_valid(s);
    } else {
        let c = prefer->0;
        assert(PLATE_SUFFIXES@[0] == '学');
        assert(PLATE_SUFFIXES@[1] == '警');
        assert(PLATE_SUFFIXES@[4] == '港');
        assert(PLATE_SUFFIXES@[5] == '澳');
        assert(PROVINCES@[18] == '粤');
        if c == "yellow"@ || c == "white"@ {
            lemma_province_is_plain(s[0]);
            lemma_suffixed_middle(s);
        } else if c == "black"@ {
            lemma_suffixed_middle(s);
        } else {
            assert forall|i: int| 1 <= i < 7 implies alnum(#[trigger] s[i]) by {
                if i >= 2 {
                    assert(s.subrange(2, 7)[i - 2] == s[i]);
                }
            }
        }
    }
}

/// A plate made of a province and plate letters and digits holds none of
/// the characters that mark a special plate.
proof fn lemma_plain_chars(s: Seq<char>, from: int)
    requires
        0 <= from <= s.len(),
        forall|i: int| 0 <= i < from ==> province(#[trigger] s[i]),
        forall|i: int| from <= i < s.len() ==> alnum(#[trigger] s[i]),
    ensures
        !s.contains('使'),
        !s.contains('警'),
        !s.contains('领'),
        !s.contains('港'),
        !s.contains('澳'),
        !s.contains('学'),
        !s.contains('挂'),
{
    assert forall|i: int| 0 <= i < s.len() implies {
        let c = #[trigger] s[i];
        c != '使' && c != '警' && c != '领' && c != '港' && c != '澳' && c != '学' && c != '挂'
    } by {
        if i < from {
            lemma_province_is_plain(s[i]);
        }
    }
}

/// For the blue, white, black, black_shi and green_car styles, inferring
/// the colour of a plate that [`generate_random`] made in that style gives
/// back the requested colour; so does an unrequested colour.
pub proof fn lemma_inferred_color_matches_style(
    prefer: Option<Seq<char>>,
    plate: Seq<char>,
    color: Seq<char>,
)
    requires
        random_outcome(prefer, plate, color),
        prefer matches Some(c) ==> (c == "blue"@ || c == "white"@ || c == "black"@ || c
            == "black_shi"@ || c == "green_car"@),
    ensures
        inferred_color(plate) == color,
{
    let s = plate;
    reveal_strlit("blue");
    reveal_strlit("white");
    reveal_strlit("black");
    reveal_strlit("black_shi");
    reveal_strlit("green_car");
    reveal_strlit("green_truck");
    reveal_strlit("yellow");
    assert("green_car"@.len() == 9 && "green_truck"@.len() == 11 && "yellow"@.len() == 6);
    assert("blue"@.len() == 4 && "white"@.len() == 5 && "black"@.len() == 5);
    assert("black_shi"@.len() == 9 && "black_shi"@[0] != "green_car"@[0]);
    assert("black"@[0] != "white"@[0] && "blue"@[0] != "green_car"@[0]);
    if prefer is None {
    } else {
        let c = prefer->0;
        if c == "green_car"@ {
        } else if c == "white"@ {
            assert("white"@.len() == 5);
            assert("yellow"@.len() == 6);
            assert("white"@ != "yellow"@);
            assert(styled_outcome(c, s) == suffixed_blue(s, '警'));
            assert(s[6] == '警');
        } else if c == "black"@ {
            assert("black"@ != "white"@);
            assert(s[0] == '粤');
            assert forall|i: int| 0 <= i < 7 implies #[trigger] s[i] != '警' && s[i] != '使' by {
                if 2 <= i < 6 {
                    assert(s.subrange(2, 6)[i - 2] == s[i]);
                }
            }
            assert(!s.contains('警'));
            assert(!s.contains('使'));
            assert(s[6] == '港' || s[6] == '澳');
            assert(s.contains(s[6]));
        } else if c == "black_shi"@ {
            assert(s[0] == '使');
            assert forall|i: int| 1 <= i < 7 implies alnum(#[trigger] s[i]) by {
                if i >= 2 {
                    assert(s.subrange(2, 7)[i - 2] == s[i]);
                }
            }
            assert(!s.contains('警'));
        } else {
            assert forall|i: int| 2 <= i < 7 implies alnum(#[trigger] s[i]) by {
                assert(s.subrange(2, 7)[i - 2] == s[i]);
            }
            lemma_province_is_plain(s[0]);
            lemma_plain_chars(s, 1);
        }
    }
}

} // verus!
