//! Cell addressing: bijective base-26 column labels and `A1`-style cell
//! references.
//!
//! A column label is a numeral in bijective base 26: the digits are `A`..`Z`
//! standing for 0..25, and there is no zero digit, so `Z` is 25 while `AA`
//! is 26 (not 676).

use vstd::prelude::*;

verus! {

/// The value of one label letter: `A` is 0, `Z` is 25.
pub open spec fn letter_val(c: char) -> int {
    c as int - 'A' as int
}

/// A well-formed column label: nonempty, uppercase `A`..`Z` only.
pub open spec fn valid_label(s: Seq<char>) -> bool {
    s.len() >= 1 && forall|i: int| 0 <= i < s.len() ==> 'A' <= #[trigger] s[i] <= 'Z'
}

/// The zero-based column index denoted by a label, as a bijective base-26
/// numeral: each letter after the first first bumps the accumulator by one
/// place value.
pub open spec fn col_index_of(s: Seq<char>) -> int
    decreases s.len(),
{
    if s.len() <= 1 {
        letter_val(s[0])
    } else {
        (col_index_of(s.drop_last()) + 1) * 26 + letter_val(s.last())
    }
}

/// The letter standing for one bijective base-26 digit.
pub open spec fn letter_of(d: int) -> char {
    if d == 0 { 'A' } else if d == 1 { 'B' } else if d == 2 { 'C' } else if d == 3 { 'D' }
    else if d == 4 { 'E' } else if d == 5 { 'F' } else if d == 6 { 'G' } else if d == 7 { 'H' }
    else if d == 8 { 'I' } else if d == 9 { 'J' } else if d == 10 { 'K' } else if d == 11 { 'L' }
    else if d == 12 { 'M' } else if d == 13 { 'N' } else if d == 14 { 'O' } else if d == 15 { 'P' }
    else if d == 16 { 'Q' } else if d == 17 { 'R' } else if d == 18 { 'S' } else if d == 19 { 'T' }
    else if d == 20 { 'U' } else if d == 21 { 'V' } else if d == 22 { 'W' } else if d == 23 { 'X' }
    else if d == 24 { 'Y' } else { 'Z' }
}

/// The label denoting a zero-based column index: the inverse direction of
/// `col_index_of`.
pub open spec fn label_of(n: nat) -> Seq<char>
    decreases n,
{
    if n < 26 {
        seq![letter_of(n as int)]
    } else {
        label_of((n / 26 - 1) as nat).push(letter_of((n % 26) as int))
    }
}

/// Every label denotes a nonnegative index.
pub proof fn lemma_col_index_nonneg(s: Seq<char>)
    requires
        valid_label(s),
    ensures
        col_index_of(s) >= 0,
    decreases s.len(),
{
    if s.len() > 1 {
        lemma_col_index_nonneg(s.drop_last());
    }
}

/// Labels produced by `label_of` are well formed.
pub proof fn lemma_label_of_valid(n: nat)
    ensures
        valid_label(label_of(n)),
    decreases n,
{
    if n >= 26 {
        lemma_label_of_valid((n / 26 - 1) as nat);
    }
}

/// Reading back the label of an index yields that index.
pub proof fn lemma_index_round_trip(n: nat)
    ensures
        col_index_of(label_of(n)) == n,
    decreases n,
{
    if n < 26 {
    } else {
        let m = (n / 26 - 1) as nat;
        lemma_index_round_trip(m);
        lemma_label_of_valid(m);
        let lab = label_of(m);
        let whole = lab.push(letter_of((n % 26) as int));
        assert(whole.drop_last() =~= lab);
        assert(whole.last() == letter_of((n % 26) as int));
        assert(col_index_of(whole) == (m + 1) * 26 + n % 26);
        assert((m + 1) * 26 == (n / 26) * 26) by {
            assert(m + 1 == n / 26);
        }
        assert((n / 26) * 26 + n % 26 == n) by {
            vstd::arithmetic::div_mod::lemma_fundamental_div_mod(n as int, 26);
        }
    }
}

/// The label of the index of a well-formed label is that label again.
pub proof fn lemma_label_round_trip(s: Seq<char>)
    requires
        valid_label(s),
    ensures
        label_of(col_index_of(s) as nat) == s,
    decreases s.len(),
{
    if s.len() <= 1 {
        let d = letter_val(s[0]);
        assert(0 <= d < 26);
        assert(letter_of(d) == s[0]);
        assert(label_of(d as nat) =~= s);
    } else {
        let pre = s.drop_last();
        assert(valid_label(pre));
        lemma_label_round_trip(pre);
        lemma_col_index_nonneg(pre);
        let v = col_index_of(pre);
        let d = letter_val(s.last());
        let n = (v + 1) * 26 + d;
        assert(col_index_of(s) == n);
        assert(0 <= d < 26);
        assert(n >= 26);
        assert(n / 26 == v + 1 && n % 26 == d) by {
            vstd::arithmetic::div_mod::lemma_fundamental_div_mod_converse(
                n as int, 26, v + 1, d);
        }
        assert(letter_of(d) == s.last());
        assert(label_of(n as nat) == label_of(v as nat).push(letter_of(d)));
        assert(label_of(n as nat) =~= s);
    }
}

/// A longer prefix of a label denotes a strictly larger index.
proof fn lemma_col_prefix_lt(s: Seq<char>, i: int)
    requires
        valid_label(s),
        1 <= i < s.len(),
    ensures
        col_index_of(s.take(i)) < col_index_of(s.take(i + 1)),
{
    let a = s.take(i);
    let b = s.take(i + 1);
    assert(b.drop_last() =~= a);
    assert(valid_label(a));
    lemma_col_index_nonneg(a);
    assert(col_index_of(b) == (col_index_of(a) + 1) * 26 + letter_val(b.last()));
    assert(letter_val(b.last()) >= 0);
}

/// Every proper prefix of a label denotes an index no larger than the whole
/// label's.
proof fn lemma_col_prefix_le(s: Seq<char>, i: int)
    requires
        valid_label(s),
        1 <= i <= s.len(),
    ensures
        col_index_of(s.take(i)) <= col_index_of(s),
    decreases s.len() - i,
{
    if i == s.len() {
        assert(s.take(i) =~= s);
    } else {
        lemma_col_prefix_lt(s, i);
        lemma_col_prefix_le(s, i + 1);
    }
}

/// String label to zero-based column index.
///
/// The label is read as a bijective base-26 numeral: `A` is 0, `Z` is 25,
/// `AA` is 26.
pub fn column_to_index(value: &str) -> (index: usize)
    requires
        valid_label(value@),
        col_index_of(value@) <= usize::MAX,
    ensures
        index == col_index_of(value@),
{
    let len = value.unicode_len();
    let mut index: usize = 0;
    let mut i: usize = 0;
    while i < len
        invariant
            valid_label(value@),
            col_index_of(value@) <= usize::MAX,
            len == value@.len(),
            0 <= i <= len,
            i == 0 ==> index == 0,
            i >= 1 ==> index == col_index_of(value@.take(i as int)),
        decreases len - i,
    {
        let c = value.get_char(i);
        let d = (c as u32 - 'A' as u32) as usize;
        proof {
            assert(value@[i as int] == c);
            assert(d == letter_val(c));
            if i >= 1 {
                lemma_col_prefix_le(value@, i + 1);
                lemma_col_prefix_lt(value@, i as int);
                lemma_col_index_nonneg(value@.take(i as int));
                assert(value@.take(i + 1).drop_last() =~= value@.take(i as int));
            } else {
                lemma_col_prefix_le(value@, 1);
                assert(value@.take(1) =~= seq![value@[0]]);
            }
        }
        if i == 0 {
            index = d;
        } else {
            index = (index + 1) * 26 + d;
        }
        i = i + 1;
    }
    proof {
        assert(value@.take(len as int) =~= value@);
    }
    index
}

/// One bijective base-26 digit as its letter.
fn letter_str(d: usize) -> (r: &'static str)
    requires
        0 <= d < 26,
    ensures
        r@ =~= seq![letter_of(d as int)],
{
    let r: &'static str = match d {
        0 => "A", 1 => "B", 2 => "C", 3 => "D", 4 => "E", 5 => "F", 6 => "G",
        7 => "H", 8 => "I", 9 => "J", 10 => "K", 11 => "L", 12 => "M", 13 => "N",
        14 => "O", 15 => "P", 16 => "Q", 17 => "R", 18 => "S", 19 => "T", 20 => "U",
        21 => "V", 22 => "W", 23 => "X", 24 => "Y", _ => "Z",
    };
    proof {
        reveal_strlit("A"); reveal_strlit("B"); reveal_strlit("C"); reveal_strlit("D");
        reveal_strlit("E"); reveal_strlit("F"); reveal_strlit("G"); reveal_strlit("H");
        reveal_strlit("I"); reveal_strlit("J"); reveal_strlit("K"); reveal_strlit("L");
        reveal_strlit("M"); reveal_strlit("N"); reveal_strlit("O"); reveal_strlit("P");
        reveal_strlit("Q"); reveal_strlit("R"); reveal_strlit("S"); reveal_strlit("T");
        reveal_strlit("U"); reveal_strlit("V"); reveal_strlit("W"); reveal_strlit("X");
        reveal_strlit("Y"); reveal_strlit("Z");
    }
    r
}

/// Zero-based column index to its string label: the inverse of
/// `column_to_index`.
pub fn index_to_column(index: usize) -> (label: String)
    ensures
        label@ == label_of(index as nat),
    decreases index,
{
    if index < 26 {
        let s = letter_str(index);
        let r = String::from_str(s);
        proof {
            assert(r@ =~= label_of(index as nat));
        }
        r
    } else {
        let head = index_to_column(index / 26 - 1);
        let r = head.concat(letter_str(index % 26));
        proof {
            assert(r@ =~= label_of(index as nat));
        }
        r
    }
}

/// A decimal digit character.
pub open spec fn is_digit(c: char) -> bool {
    '0' <= c <= '9'
}

/// The value of one decimal digit character.
pub open spec fn digit_val(c: char) -> int {
    c as int - '0' as int
}

/// The number denoted by a run of decimal digit characters.
pub open spec fn digits_val(s: Seq<char>) -> int
    decreases s.len(),
{
    if s.len() == 0 {
        0
    } else {
        digits_val(s.drop_last()) * 10 + digit_val(s.last())
    }
}

/// All characters of the sequence are decimal digits.
pub open spec fn all_digits(s: Seq<char>) -> bool {
    forall|i: int| 0 <= i < s.len() ==> is_digit(#[trigger] s[i])
}

/// The position of the earliest decimal digit in the string, if any.
pub open spec fn first_digit_pos(s: Seq<char>) -> Option<int> {
    if exists|i: int| 0 <= i < s.len() && is_digit(s[i]) {
        Some(choose|i: int| 0 <= i < s.len() && is_digit(s[i])
            && forall|j: int| 0 <= j < i ==> !is_digit(#[trigger] s[j]))
    } else {
        None
    }
}

/// What a well-formed `A1`-style reference splits into: `Some` exactly when
/// the string has a digit somewhere, the letters before the earliest digit
/// form a well-formed label, everything from that digit on is numeric, the
/// row number is one-based, and both indices fit the machine word.
pub open spec fn cell_ref_split(s: Seq<char>) -> Option<(int, int)> {
    match first_digit_pos(s) {
        None => None,
        Some(p) => {
            let prefix = s.take(p);
            let suffix = s.skip(p);
            if valid_label(prefix) && all_digits(suffix) && digits_val(suffix) >= 1
                && col_index_of(prefix) <= usize::MAX && digits_val(suffix) <= usize::MAX {
                Some((col_index_of(prefix), digits_val(suffix) - 1))
            } else {
                None
            }
        },
    }
}

/// Digit runs denote nonnegative numbers.
proof fn lemma_digits_val_nonneg(s: Seq<char>)
    requires
        all_digits(s),
    ensures
        digits_val(s) >= 0,
    decreases s.len(),
{
    if s.len() > 0 {
        lemma_digits_val_nonneg(s.drop_last());
    }
}

/// A longer digit run denotes at least as large a number.
pub proof fn lemma_digits_prefix_le(s: Seq<char>, i: int)
    requires
        all_digits(s),
        0 <= i <= s.len(),
    ensures
        digits_val(s.take(i)) <= digits_val(s),
    decreases s.len() - i,
{
    if i == s.len() {
        assert(s.take(i) =~= s);
    } else {
        let a = s.take(i);
        let b = s.take(i + 1);
        assert(b.drop_last() =~= a);
        assert(all_digits(a));
        lemma_digits_val_nonneg(a);
        assert(digits_val(b) == digits_val(a) * 10 + digit_val(b.last()));
        assert(digit_val(b.last()) >= 0);
        lemma_digits_prefix_le(s, i + 1);
    }
}

/// The position of the earliest decimal digit, or the length when there is
/// none.
fn find_first_digit(value: &str) -> (p: usize)
    ensures
        p <= value@.len(),
        forall|j: int| 0 <= j < p ==> !is_digit(#[trigger] value@[j]),
        p < value@.len() ==> is_digit(value@[p as int]),
{
    let len = value.unicode_len();
    let mut p: usize = 0;
    while p < len
        invariant
            len == value@.len(),
            0 <= p <= len,
            forall|j: int| 0 <= j < p ==> !is_digit(#[trigger] value@[j]),
        decreases len - p,
    {
        let c = value.get_char(p);
        if '0' <= c && c <= '9' {
            return p;
        }
        p = p + 1;
    }
    p
}

/// Whether the first `p` characters form a well-formed column label.
fn check_label_prefix(value: &str, p: usize) -> (r: bool)
    requires
        1 <= p <= value@.len(),
    ensures
        r == valid_label(value@.take(p as int)),
{
    let ghost prefix = value@.take(p as int);
    let mut i: usize = 0;
    while i < p
        invariant
            1 <= p <= value@.len(),
            0 <= i <= p,
            prefix == value@.take(p as int),
            forall|j: int| 0 <= j < i ==> 'A' <= #[trigger] prefix[j] <= 'Z',
        decreases p - i,
    {
        let c = value.get_char(i);
        proof {
            assert(prefix[i as int] == c);
        }
        if !('A' <= c && c <= 'Z') {
            proof {
                assert(!valid_label(prefix));
            }
            return false;
        }
        i = i + 1;
    }
    true
}

/// The number denoted by the digits from `p` on: `None` when a character
/// there is no digit or the number does not fit the machine word.
fn row_of_suffix(value: &str, p: usize) -> (r: Option<usize>)
    requires
        p <= value@.len(),
    ensures
        match r {
            Some(v) => all_digits(value@.skip(p as int))
                && v == digits_val(value@.skip(p as int)),
            None => !all_digits(value@.skip(p as int))
                || digits_val(value@.skip(p as int)) > usize::MAX,
        },
{
    let len = value.unicode_len();
    let ghost suffix = value@.skip(p as int);
    let mut row: usize = 0;
    let mut k: usize = p;
    while k < len
        invariant
            len == value@.len(),
            p <= k <= len,
            suffix == value@.skip(p as int),
            forall|j: int| p <= j < k ==> is_digit(#[trigger] value@[j]),
            row == digits_val(value@.subrange(p as int, k as int)),
        decreases len - k,
    {
        let c = value.get_char(k);
        if !('0' <= c && c <= '9') {
            proof {
                assert(suffix[(k - p) as int] == c);
                assert(!all_digits(suffix));
            }
            return None;
        }
        let d = (c as u32 - '0' as u32) as usize;
        let ghost a = value@.subrange(p as int, k as int);
        let ghost b = value@.subrange(p as int, (k as int) + 1);
        proof {
            assert(b.drop_last() =~= a);
            assert(b.last() == c);
            assert(d == digit_val(c));
        }
        let step = match row.checked_mul(10) {
            Some(t) => t.checked_add(d),
            None => None,
        };
        match step {
            Some(next) => {
                row = next;
            },
            None => {
                // The row number does not fit the machine word.
                proof {
                    assert(all_digits(b)) by {
                        assert(forall|j: int| 0 <= j < b.len()
                            ==> is_digit(#[trigger] b[j]) == is_digit(value@[p + j]));
                    }
                    assert(digits_val(b) > usize::MAX);
                    assert(suffix.take((k as int) + 1 - p) =~= b);
                    if all_digits(suffix) {
                        lemma_digits_prefix_le(suffix, (k as int) + 1 - p);
                        assert(digits_val(suffix) > usize::MAX);
                    }
                }
                return None;
            },
        }
        k = k + 1;
    }
    proof {
        assert(value@.subrange(p as int, len as int) =~= suffix);
        assert(all_digits(suffix)) by {
            assert(forall|j: int| 0 <= j < suffix.len()
                ==> is_digit(#[trigger] suffix[j]) == is_digit(value@[p + j]));
        }
    }
    Some(row)
}

/// The index of the label formed by the first `p` characters: `None` when it
/// does not fit the machine word.
fn col_of_prefix(value: &str, p: usize) -> (r: Option<usize>)
    requires
        1 <= p <= value@.len(),
        valid_label(value@.take(p as int)),
    ensures
        match r {
            Some(v) => v == col_index_of(value@.take(p as int)),
            None => col_index_of(value@.take(p as int)) > usize::MAX,
        },
{
    let ghost prefix = value@.take(p as int);
    let mut col: usize = 0;
    let mut i: usize = 0;
    while i < p
        invariant
            1 <= p <= value@.len(),
            0 <= i <= p,
            valid_label(prefix),
            prefix == value@.take(p as int),
            i == 0 ==> col == 0,
            i >= 1 ==> col == col_index_of(prefix.take(i as int)),
        decreases p - i,
    {
        let c = value.get_char(i);
        proof {
            assert(prefix[i as int] == value@[i as int]);
            assert('A' <= c <= 'Z');
        }
        let d = (c as u32 - 'A' as u32) as usize;
        proof {
            assert(d == letter_val(prefix[i as int]));
            if i >= 1 {
                assert(prefix.take((i as int) + 1).drop_last() =~= prefix.take(i as int));
                assert(prefix.take((i as int) + 1).last() == prefix[i as int]);
                lemma_col_index_nonneg(prefix.take(i as int));
            } else {
                assert(prefix.take(1) =~= seq![prefix[0]]);
            }
        }
        let step = if i == 0 {
            Some(d)
        } else {
            match col.checked_add(1) {
                Some(t) => match t.checked_mul(26) {
                    Some(u) => u.checked_add(d),
                    None => None,
                },
                None => None,
            }
        };
        match step {
            Some(next) => {
                col = next;
            },
            None => {
                proof {
                    assert(col_index_of(prefix.take((i as int) + 1)) > usize::MAX);
                    lemma_col_prefix_le(prefix, (i as int) + 1);
                }
                return None;
            },
        }
        i = i + 1;
    }
    proof {
        assert(prefix.take(p as int) =~= prefix);
    }
    Some(col)
}

/// Parses a nonempty run of decimal digits: `None` for an empty string,
/// a non-digit character, or a number beyond the machine word.
pub fn parse_usize(s: &str) -> (r: Option<usize>)
    ensures
        match r {
            Some(v) => s@.len() > 0 && all_digits(s@) && v == digits_val(s@),
            None => s@.len() == 0 || !all_digits(s@) || digits_val(s@) > usize::MAX,
        },
{
    let len = s.unicode_len();
    if len == 0 {
        return None;
    }
    let r = row_of_suffix(s, 0);
    proof {
        assert(s@.skip(0) =~= s@);
    }
    r
}

/// Splits an `A1`-style reference into its zero-based column and row
/// indices: `ZZ12` becomes `Some((701, 11))`.
///
/// The split point is the earliest decimal digit anywhere in the string;
/// the letters before it are a bijective base-26 column label and the rest
/// is the one-based row number. A string with no digit, or one that does
/// not fit this shape, yields `None`.
pub fn column_and_row_to_index(value: &str) -> (r: Option<(usize, usize)>)
    ensures
        match r {
            Some(p) => cell_ref_split(value@) == Some((p.0 as int, p.1 as int)),
            None => cell_ref_split(value@) is None,
        },
{
    let len = value.unicode_len();
    let p = find_first_digit(value);
    if p == len {
        proof {
            assert(forall|i: int| 0 <= i < value@.len() ==> !is_digit(#[trigger] value@[i]));
        }
        return None;
    }
    proof {
        assert(is_digit(value@[p as int]));
        assert(0 <= p < value@.len() && is_digit(value@[p as int])
            && forall|j: int| 0 <= j < p ==> !is_digit(#[trigger] value@[j]));
        let q = choose|i: int| 0 <= i < value@.len() && is_digit(value@[i])
            && forall|j: int| 0 <= j < i ==> !is_digit(#[trigger] value@[j]);
        assert(!(q < p) && !(p < q));
        assert(first_digit_pos(value@) == Some(p as int));
    }
    let ghost prefix = value@.take(p as int);
    let ghost suffix = value@.skip(p as int);
    if p == 0 {
        // No letters before the first digit: not a well-formed reference.
        proof {
            assert(prefix.len() == 0);
            assert(!valid_label(prefix));
        }
        return None;
    }
    if !check_label_prefix(value, p) {
        return None;
    }
    let row = match row_of_suffix(value, p) {
        Some(v) => v,
        None => {
            return None;
        },
    };
    if row == 0 {
        proof {
            lemma_digits_val_nonneg(suffix);
        }
        return None;
    }
    let col = match col_of_prefix(value, p) {
        Some(v) => v,
        None => {
            return None;
        },
    };
    Some((col, row - 1))
}

} // verus!
