//! The wire form of the protocol, as mathematics: what each message encodes
//! to, and how an encoded text parses back.
//!
//! A message is a self-describing object text. The union discriminant sits in
//! an explicit `type` field ahead of the payload fields, and every payload
//! field appears under its own name. The grammar, with `dec` a decimal numeral
//! without leading zeros:
//!
//! ```text
//! message  =  '{'  "type:" strval  fields  '}'
//! strval   =  dec ':' chars            dec counts the chars
//! numval   =  dec ';'
//! listval  =  numval strval*           the numval counts the items
//! bytesval =  numval numval*           the first numval counts the bytes
//! objval   =  '{' fields '}'
//! field    =  name ':' (strval | numval | listval | bytesval | objval)
//! ```
//!
//! Every value carries its own length, so the encoding of a message determines
//! the message: the parser functions here recover it, and the lemmas at the
//! bottom prove that they do.

use vstd::prelude::*;
use crate::messages::AeadConfigView;
use crate::messages::CreateFileRequestView;
use crate::messages::CreateFileResponseView;
use crate::messages::DFSRequestView;
use crate::messages::DFSResponseView;
use crate::messages::DeleteFileRequestView;
use crate::messages::DeleteFileResponseView;
use crate::messages::FileInfoView;
use crate::messages::GetFileRequestView;
use crate::messages::GetFileResponseView;
use crate::messages::ListFileRequestView;
use crate::messages::ListFileResponseView;

verus! {

// ---------------------------------------------------------------------------
// Decimal numerals
// ---------------------------------------------------------------------------

pub open spec fn is_digit(c: char) -> bool {
    c == '0' || c == '1' || c == '2' || c == '3' || c == '4' || c == '5' || c == '6' || c == '7'
        || c == '8' || c == '9'
}

pub open spec fn digit_char(d: nat) -> char {
    if d == 0 {
        '0'
    } else if d == 1 {
        '1'
    } else if d == 2 {
        '2'
    } else if d == 3 {
        '3'
    } else if d == 4 {
        '4'
    } else if d == 5 {
        '5'
    } else if d == 6 {
        '6'
    } else if d == 7 {
        '7'
    } else if d == 8 {
        '8'
    } else {
        '9'
    }
}

pub open spec fn digit_val(c: char) -> nat {
    if c == '0' {
        0
    } else if c == '1' {
        1
    } else if c == '2' {
        2
    } else if c == '3' {
        3
    } else if c == '4' {
        4
    } else if c == '5' {
        5
    } else if c == '6' {
        6
    } else if c == '7' {
        7
    } else if c == '8' {
        8
    } else {
        9
    }
}

pub open spec fn all_digits(s: Seq<char>) -> bool {
    forall|i: int| 0 <= i < s.len() ==> is_digit(s[i])
}

/// The decimal numeral of `n`, most significant digit first, without leading
/// zeros.
pub open spec fn dec_of(n: nat) -> Seq<char>
    decreases n,
{
    if n < 10 {
        seq![digit_char(n)]
    } else {
        dec_of(n / 10).push(digit_char(n % 10))
    }
}

/// The value of a digit string, read most significant digit first.
pub open spec fn dec_val(s: Seq<char>) -> nat
    decreases s.len(),
{
    if s.len() == 0 {
        0
    } else {
        dec_val(s.drop_last()) * 10 + digit_val(s.last())
    }
}

pub proof fn lemma_dec_of(n: nat)
    ensures
        dec_of(n).len() >= 1,
        all_digits(dec_of(n)),
        n >= 1 ==> dec_of(n)[0] != '0',
        n < 10 ==> dec_of(n).len() == 1,
        dec_val(dec_of(n)) == n,
    decreases n,
{
    if n < 10 {
        let s = seq![digit_char(n)];
        assert(s.len() == 1);
        assert(s.last() == digit_char(n));
        assert(s.drop_last() =~= Seq::<char>::empty());
        assert(dec_val(s.drop_last()) == 0);
        assert(dec_val(s) == digit_val(digit_char(n)));
    } else {
        lemma_dec_of(n / 10);
        let s = dec_of(n / 10).push(digit_char(n % 10));
        assert(s.drop_last() =~= dec_of(n / 10));
        assert(s.last() == digit_char(n % 10));
        assert(dec_val(s) == (n / 10) * 10 + n % 10);
        assert((n / 10) * 10 + n % 10 == n) by {
            vstd::arithmetic::div_mod::lemma_fundamental_div_mod(n as int, 10);
        }
        assert(s[0] == dec_of(n / 10)[0]);
    }
}

/// Reading only a prefix of a digit string never reads past its value.
pub proof fn lemma_dec_val_mono(s: Seq<char>, k: int)
    requires
        0 <= k <= s.len(),
    ensures
        dec_val(s.take(k)) <= dec_val(s),
    decreases s.len(),
{
    if k == s.len() {
        assert(s.take(k) =~= s);
    } else {
        lemma_dec_val_mono(s.drop_last(), k);
        assert(s.drop_last().take(k) =~= s.take(k));
        assert(dec_val(s) == dec_val(s.drop_last()) * 10 + digit_val(s.last()));
        assert(dec_val(s.drop_last()) * 10 >= dec_val(s.drop_last())) by {
            assert(dec_val(s.drop_last()) * 10 == dec_val(s.drop_last()) + dec_val(s.drop_last())
                * 9) by (nonlinear_arith);
        }
    }
}

/// A digit string without a leading zero names a positive value.
pub proof fn lemma_dec_val_pos(s: Seq<char>)
    requires
        s.len() >= 1,
        all_digits(s),
        s[0] != '0',
    ensures
        dec_val(s) >= 1,
    decreases s.len(),
{
    if s.len() == 1 {
        assert(s.last() == s[0]);
        assert(is_digit(s[0]));
    } else {
        assert(s.drop_last()[0] == s[0]);
        assert(all_digits(s.drop_last()));
        lemma_dec_val_pos(s.drop_last());
        assert(dec_val(s) == dec_val(s.drop_last()) * 10 + digit_val(s.last()));
    }
}

/// Each value has one spelling: reading a numeral back and writing its value
/// again gives the numeral.
pub proof fn lemma_dec_canonical(s: Seq<char>)
    requires
        s.len() >= 1,
        all_digits(s),
        s.len() > 1 ==> s[0] != '0',
    ensures
        dec_of(dec_val(s)) == s,
    decreases s.len(),
{
    let v = dec_val(s);
    if s.len() == 1 {
        assert(s.drop_last() =~= Seq::<char>::empty());
        assert(dec_val(s.drop_last()) == 0);
        assert(s.last() == s[0]);
        assert(v == digit_val(s[0]));
        assert(is_digit(s[0]));
        assert(v < 10);
        assert(digit_char(digit_val(s[0])) == s[0]);
        assert(seq![s[0]] =~= s);
    } else {
        let s2 = s.drop_last();
        let d = digit_val(s.last());
        assert(s2[0] == s[0]);
        assert(all_digits(s2));
        lemma_dec_val_pos(s2);
        assert(v == dec_val(s2) * 10 + d);
        assert(dec_val(s2) >= 1);
        assert(v >= 10) by (nonlinear_arith)
            requires
                v == dec_val(s2) * 10 + d,
                dec_val(s2) >= 1,
        ;
        assert(v / 10 == dec_val(s2) && v % 10 == d) by {
            assert(is_digit(s.last()));
            vstd::arithmetic::div_mod::lemma_fundamental_div_mod_converse(
                v as int,
                10,
                dec_val(s2) as int,
                d as int,
            );
        }
        lemma_dec_canonical(s2);
        assert(is_digit(s.last()));
        assert(digit_char(d) == s.last());
        assert(s2.push(s.last()) =~= s);
    }
}

// ---------------------------------------------------------------------------
// Parsing positions
// ---------------------------------------------------------------------------

/// `p` stands verbatim in `s` at position `i`.
pub open spec fn starts_with_at(s: Seq<char>, i: int, p: Seq<char>) -> bool {
    0 <= i && i + p.len() <= s.len() && s.subrange(i, i + p.len()) == p
}

/// A concatenation standing at `i` is its left part at `i` and its right part
/// just after.
pub proof fn lemma_starts_with_concat(s: Seq<char>, i: int, a: Seq<char>, b: Seq<char>)
    requires
        starts_with_at(s, i, a + b),
    ensures
        starts_with_at(s, i, a),
        starts_with_at(s, i + a.len(), b),
{
    let ab = a + b;
    assert(s.subrange(i, i + a.len()) =~= a) by {
        assert forall|k: int| 0 <= k < a.len() implies s.subrange(i, i + a.len())[k] == a[k] by {
            assert(s.subrange(i, i + ab.len())[k] == ab[k]);
        }
    }
    assert(s.subrange(i + a.len(), i + a.len() + b.len()) =~= b) by {
        assert forall|k: int|
            0 <= k < b.len() implies s.subrange(i + a.len(), i + a.len() + b.len())[k] == b[k] by {
            assert(s.subrange(i, i + ab.len())[a.len() + k] == ab[a.len() + k]);
        }
    }
}

/// Two parts standing one after the other are their concatenation standing at
/// the first's position.
pub proof fn lemma_starts_with_join(s: Seq<char>, i: int, a: Seq<char>, b: Seq<char>)
    requires
        starts_with_at(s, i, a),
        starts_with_at(s, i + a.len(), b),
    ensures
        starts_with_at(s, i, a + b),
{
    let ab = a + b;
    assert(s.subrange(i, i + ab.len()) =~= ab) by {
        assert forall|k: int| 0 <= k < ab.len() implies s.subrange(i, i + ab.len())[k] == ab[k] by {
            if k < a.len() {
                assert(s.subrange(i, i + a.len())[k] == a[k]);
            } else {
                assert(s.subrange(i + a.len(), i + a.len() + b.len())[k - a.len()] == b[k
                    - a.len()]);
            }
        }
    }
}

/// A single character standing at `i` is a one-character part there.
pub proof fn lemma_starts_with_char(s: Seq<char>, i: int, c: char)
    requires
        0 <= i < s.len(),
        s[i] == c,
    ensures
        starts_with_at(s, i, seq![c]),
{
    assert(s.subrange(i, i + 1) =~= seq![c]);
}

/// Where the run of digits beginning at `i` ends.
pub open spec fn digit_run_end(s: Seq<char>, i: int) -> int
    decreases s.len() - i,
{
    if 0 <= i < s.len() && is_digit(s[i]) {
        digit_run_end(s, i + 1)
    } else {
        i
    }
}

pub proof fn lemma_digit_run_end(s: Seq<char>, i: int)
    requires
        0 <= i <= s.len(),
    ensures
        i <= digit_run_end(s, i) <= s.len(),
        forall|j: int| i <= j < digit_run_end(s, i) ==> is_digit(s[j]),
        digit_run_end(s, i) < s.len() ==> !is_digit(s[digit_run_end(s, i)]),
    decreases s.len() - i,
{
    if i < s.len() && is_digit(s[i]) {
        lemma_digit_run_end(s, i + 1);
    }
}

/// A run of digits followed by a non-digit (or the end) is the whole run.
pub proof fn lemma_digit_run_of(s: Seq<char>, i: int, d: Seq<char>)
    requires
        starts_with_at(s, i, d),
        all_digits(d),
        i + d.len() == s.len() || !is_digit(s[i + d.len()]),
    ensures
        digit_run_end(s, i) == i + d.len(),
    decreases d.len(),
{
    if d.len() == 0 {
    } else {
        assert(s[i] == d[0]);
        assert(is_digit(s[i]));
        let d2 = d.drop_first();
        assert(s.subrange(i + 1, i + 1 + d2.len()) =~= d2);
        assert(all_digits(d2));
        lemma_digit_run_of(s, i + 1, d2);
    }
}

/// A decimal numeral at position `i`: its value and the position after it.
/// Leading zeros are refused, so each value has one spelling.
pub open spec fn parse_dec_at(s: Seq<char>, i: int) -> Option<(nat, int)> {
    let e = digit_run_end(s, i);
    if e == i {
        None
    } else if s[i] == '0' && e > i + 1 {
        None
    } else {
        Some((dec_val(s.subrange(i, e)), e))
    }
}

pub proof fn lemma_parse_dec_of(s: Seq<char>, i: int, n: nat)
    requires
        starts_with_at(s, i, dec_of(n)),
        i + dec_of(n).len() == s.len() || !is_digit(s[i + dec_of(n).len()]),
    ensures
        parse_dec_at(s, i) == Some((n, i + dec_of(n).len())),
{
    lemma_dec_of(n);
    lemma_digit_run_of(s, i, dec_of(n));
    let e = digit_run_end(s, i);
    assert(e == i + dec_of(n).len());
    assert(s.subrange(i, e) == dec_of(n));
    if dec_of(n).len() > 1 {
        assert(n >= 1) by {
            if n < 10 {
                lemma_dec_of(n);
            }
        }
        assert(s[i] == dec_of(n)[0]);
        assert(s[i] != '0');
    }
}

/// What the numeral parser accepts is exactly the canonical numeral of its
/// value.
pub proof fn lemma_parse_dec_sound(s: Seq<char>, i: int)
    requires
        parse_dec_at(s, i) is Some,
    ensures
        ({
            let (n, e) = parse_dec_at(s, i)->Some_0;
            &&& starts_with_at(s, i, dec_of(n))
            &&& e == i + dec_of(n).len()
            &&& (e == s.len() || !is_digit(s[e]))
        }),
{
    let e = digit_run_end(s, i);
    assert(e != i);
    assert(0 <= i < s.len() && is_digit(s[i]));
    lemma_digit_run_end(s, i);
    let run = s.subrange(i, e);
    assert(all_digits(run));
    assert(run[0] == s[i]);
    if run.len() > 1 {
        assert(s[i] != '0');
    }
    lemma_dec_canonical(run);
}

// ---------------------------------------------------------------------------
// The value encodings, and their parsers
// ---------------------------------------------------------------------------

/// A string value: its length, a colon, then the characters themselves.
pub open spec fn enc_str(x: Seq<char>) -> Seq<char> {
    dec_of(x.len()) + seq![':'] + x
}

pub open spec fn parse_str_at(s: Seq<char>, i: int) -> Option<(Seq<char>, int)> {
    match parse_dec_at(s, i) {
        None => None,
        Some((n, j)) => if j < s.len() && s[j] == ':' && j + 1 + n <= s.len() {
            Some((s.subrange(j + 1, j + 1 + n), j + 1 + n))
        } else {
            None
        },
    }
}

pub proof fn lemma_parse_str_of(s: Seq<char>, i: int, x: Seq<char>)
    requires
        starts_with_at(s, i, enc_str(x)),
    ensures
        parse_str_at(s, i) == Some((x, i + enc_str(x).len())),
{
    let d = dec_of(x.len());
    lemma_dec_of(x.len());
    lemma_starts_with_concat(s, i, d + seq![':'], x);
    lemma_starts_with_concat(s, i, d, seq![':']);
    let j = i + d.len();
    assert(s[j] == ':') by {
        assert(s.subrange(j, j + 1)[0] == seq![':'][0]);
    }
    lemma_parse_dec_of(s, i, x.len());
    assert(s.subrange(j + 1, j + 1 + x.len()) == x);
}

/// What the string parser accepts is exactly the encoding of the string it
/// returns.
pub proof fn lemma_parse_str_sound(s: Seq<char>, i: int)
    requires
        parse_str_at(s, i) is Some,
    ensures
        ({
            let (x, e) = parse_str_at(s, i)->Some_0;
            &&& starts_with_at(s, i, enc_str(x))
            &&& e == i + enc_str(x).len()
        }),
{
    lemma_parse_dec_sound(s, i);
    let (n, j) = parse_dec_at(s, i)->Some_0;
    let x = s.subrange(j + 1, j + 1 + n);
    assert(x.len() == n);
    lemma_starts_with_char(s, j, ':');
    lemma_starts_with_join(s, i, dec_of(n), seq![':']);
    assert(starts_with_at(s, j + 1, x)) by {
        assert(s.subrange(j + 1, j + 1 + x.len()) =~= x);
    }
    lemma_starts_with_join(s, i, dec_of(n) + seq![':'], x);
}

/// A numeric value: a decimal numeral closed by a semicolon.
pub open spec fn enc_num(n: nat) -> Seq<char> {
    dec_of(n) + seq![';']
}

pub open spec fn parse_num_at(s: Seq<char>, i: int) -> Option<(nat, int)> {
    match parse_dec_at(s, i) {
        None => None,
        Some((n, j)) => if j < s.len() && s[j] == ';' {
            Some((n, j + 1))
        } else {
            None
        },
    }
}

pub proof fn lemma_parse_num_of(s: Seq<char>, i: int, n: nat)
    requires
        starts_with_at(s, i, enc_num(n)),
    ensures
        parse_num_at(s, i) == Some((n, i + enc_num(n).len())),
{
    let d = dec_of(n);
    lemma_dec_of(n);
    lemma_starts_with_concat(s, i, d, seq![';']);
    assert(s[i + d.len()] == ';') by {
        assert(s.subrange(i + d.len(), i + d.len() + 1)[0] == seq![';'][0]);
    }
    lemma_parse_dec_of(s, i, n);
}

/// What the numeric-value parser accepts is exactly the encoding of the value
/// it returns.
pub proof fn lemma_parse_num_sound(s: Seq<char>, i: int)
    requires
        parse_num_at(s, i) is Some,
    ensures
        ({
            let (n, e) = parse_num_at(s, i)->Some_0;
            &&& starts_with_at(s, i, enc_num(n))
            &&& e == i + enc_num(n).len()
        }),
{
    lemma_parse_dec_sound(s, i);
    let (n, j) = parse_dec_at(s, i)->Some_0;
    lemma_starts_with_char(s, j, ';');
    lemma_starts_with_join(s, i, dec_of(n), seq![';']);
}

// ---------------------------------------------------------------------------
// Lists of strings, and byte strings
// ---------------------------------------------------------------------------

/// The items of a string list, one string value after the other.
pub open spec fn enc_items(l: Seq<Seq<char>>) -> Seq<char>
    decreases l.len(),
{
    if l.len() == 0 {
        Seq::empty()
    } else {
        enc_str(l.first()) + enc_items(l.drop_first())
    }
}

/// A string list: how many items, then the items.
pub open spec fn enc_list(l: Seq<Seq<char>>) -> Seq<char> {
    enc_num(l.len()) + enc_items(l)
}

/// Appending one item extends the items' encoding at its end.
pub proof fn lemma_enc_items_snoc(l: Seq<Seq<char>>, x: Seq<char>)
    ensures
        enc_items(l.push(x)) == enc_items(l) + enc_str(x),
    decreases l.len(),
{
    if l.len() == 0 {
        let e = Seq::<Seq<char>>::empty();
        assert(l =~= e);
        assert(l.push(x).first() == x);
        assert(l.push(x).drop_first() =~= e);
        assert(enc_items(l.push(x)) == enc_str(x) + enc_items(e));
        assert(enc_items(e) == Seq::<char>::empty());
        assert(enc_str(x) + Seq::<char>::empty() =~= enc_str(x));
        assert(Seq::<char>::empty() + enc_str(x) =~= enc_str(x));
    } else {
        assert(l.push(x).first() == l.first());
        assert(l.push(x).drop_first() =~= l.drop_first().push(x));
        lemma_enc_items_snoc(l.drop_first(), x);
        assert(enc_str(l.first()) + (enc_items(l.drop_first()) + enc_str(x)) =~= (enc_str(l.first())
            + enc_items(l.drop_first())) + enc_str(x));
    }
}

pub open spec fn parse_items_at(s: Seq<char>, i: int, n: nat) -> Option<(Seq<Seq<char>>, int)>
    decreases n,
{
    if n == 0 {
        Some((Seq::empty(), i))
    } else {
        match parse_str_at(s, i) {
            None => None,
            Some((x, j)) => match parse_items_at(s, j, (n - 1) as nat) {
                None => None,
                Some((l, e)) => Some((seq![x] + l, e)),
            },
        }
    }
}

pub open spec fn parse_list_at(s: Seq<char>, i: int) -> Option<(Seq<Seq<char>>, int)> {
    match parse_num_at(s, i) {
        None => None,
        Some((n, j)) => parse_items_at(s, j, n),
    }
}

pub proof fn lemma_parse_items_of(s: Seq<char>, i: int, l: Seq<Seq<char>>)
    requires
        starts_with_at(s, i, enc_items(l)),
    ensures
        parse_items_at(s, i, l.len()) == Some((l, i + enc_items(l).len())),
    decreases l.len(),
{
    if l.len() == 0 {
        assert(l =~= Seq::<Seq<char>>::empty());
    } else {
        let x = l.first();
        let l2 = l.drop_first();
        lemma_starts_with_concat(s, i, enc_str(x), enc_items(l2));
        lemma_parse_str_of(s, i, x);
        let j = i + enc_str(x).len();
        lemma_parse_items_of(s, j, l2);
        assert(seq![x] + l2 =~= l);
    }
}

pub proof fn lemma_parse_list_of(s: Seq<char>, i: int, l: Seq<Seq<char>>)
    requires
        starts_with_at(s, i, enc_list(l)),
    ensures
        parse_list_at(s, i) == Some((l, i + enc_list(l).len())),
{
    lemma_starts_with_concat(s, i, enc_num(l.len()), enc_items(l));
    lemma_parse_num_of(s, i, l.len());
    lemma_parse_items_of(s, i + enc_num(l.len()).len(), l);
}

/// A string value that parses takes at least two characters and stays inside
/// the text.
pub proof fn lemma_parse_str_progress(s: Seq<char>, i: int)
    requires
        parse_str_at(s, i) is Some,
    ensures
        0 <= i,
        i + 2 <= parse_str_at(s, i)->Some_0.1 <= s.len(),
{
    let e = digit_run_end(s, i);
    assert(e != i);
    assert(0 <= i < s.len() && is_digit(s[i]));
    lemma_digit_run_end(s, i);
}

/// A numeric value that parses takes at least two characters and stays inside
/// the text.
pub proof fn lemma_parse_num_progress(s: Seq<char>, i: int)
    requires
        parse_num_at(s, i) is Some,
    ensures
        0 <= i,
        i + 2 <= parse_num_at(s, i)->Some_0.1 <= s.len(),
{
    let e = digit_run_end(s, i);
    assert(e != i);
    assert(0 <= i < s.len() && is_digit(s[i]));
    lemma_digit_run_end(s, i);
}

/// A list of `n` items that parses holds at least `n` characters of text.
pub proof fn lemma_items_bound(s: Seq<char>, i: int, n: nat)
    requires
        n > 0,
        parse_items_at(s, i, n) is Some,
    ensures
        0 <= i,
        i + n <= s.len(),
    decreases n,
{
    lemma_parse_str_progress(s, i);
    let e = parse_str_at(s, i)->Some_0.1;
    if n > 1 {
        lemma_items_bound(s, e, (n - 1) as nat);
    }
}

/// What the items parser accepts is exactly the encoding of the items it
/// returns, and it returns as many as asked.
pub proof fn lemma_parse_items_sound(s: Seq<char>, i: int, n: nat)
    requires
        0 <= i <= s.len(),
        parse_items_at(s, i, n) is Some,
    ensures
        ({
            let (l, e) = parse_items_at(s, i, n)->Some_0;
            &&& l.len() == n
            &&& starts_with_at(s, i, enc_items(l))
            &&& e == i + enc_items(l).len()
        }),
    decreases n,
{
    if n == 0 {
        assert(s.subrange(i, i) =~= Seq::<char>::empty());
    } else {
        lemma_parse_str_sound(s, i);
        let (x, j) = parse_str_at(s, i)->Some_0;
        lemma_parse_items_sound(s, j, (n - 1) as nat);
        let (l2, e) = parse_items_at(s, j, (n - 1) as nat)->Some_0;
        lemma_starts_with_join(s, i, enc_str(x), enc_items(l2));
        let l = seq![x] + l2;
        assert(l.first() == x);
        assert(l.drop_first() =~= l2);
    }
}

/// What the list parser accepts is exactly the encoding of the list it
/// returns.
pub proof fn lemma_parse_list_sound(s: Seq<char>, i: int)
    requires
        parse_list_at(s, i) is Some,
    ensures
        ({
            let (l, e) = parse_list_at(s, i)->Some_0;
            &&& starts_with_at(s, i, enc_list(l))
            &&& e == i + enc_list(l).len()
        }),
{
    lemma_parse_num_sound(s, i);
    lemma_parse_num_progress(s, i);
    let (n, j) = parse_num_at(s, i)->Some_0;
    lemma_parse_items_sound(s, j, n);
    let (l, e) = parse_items_at(s, j, n)->Some_0;
    lemma_starts_with_join(s, i, enc_num(n), enc_items(l));
}

/// The bytes of a byte string, each as its own numeric value.
pub open spec fn enc_bytes_items(b: Seq<u8>) -> Seq<char>
    decreases b.len(),
{
    if b.len() == 0 {
        Seq::empty()
    } else {
        enc_num(b.first() as nat) + enc_bytes_items(b.drop_first())
    }
}

/// A byte string: how many bytes, then the bytes.
pub open spec fn enc_bytes(b: Seq<u8>) -> Seq<char> {
    enc_num(b.len()) + enc_bytes_items(b)
}

/// Appending one byte extends the bytes' encoding at its end.
pub proof fn lemma_enc_bytes_items_snoc(b: Seq<u8>, x: u8)
    ensures
        enc_bytes_items(b.push(x)) == enc_bytes_items(b) + enc_num(x as nat),
    decreases b.len(),
{
    if b.len() == 0 {
        let e = Seq::<u8>::empty();
        assert(b =~= e);
        assert(b.push(x).first() == x);
        assert(b.push(x).drop_first() =~= e);
        assert(enc_bytes_items(b.push(x)) == enc_num(x as nat) + enc_bytes_items(e));
        assert(enc_bytes_items(e) == Seq::<char>::empty());
        assert(enc_num(x as nat) + Seq::<char>::empty() =~= enc_num(x as nat));
        assert(Seq::<char>::empty() + enc_num(x as nat) =~= enc_num(x as nat));
    } else {
        assert(b.push(x).first() == b.first());
        assert(b.push(x).drop_first() =~= b.drop_first().push(x));
        lemma_enc_bytes_items_snoc(b.drop_first(), x);
        assert(enc_num(b.first() as nat) + (enc_bytes_items(b.drop_first()) + enc_num(x as nat))
            =~= (enc_num(b.first() as nat) + enc_bytes_items(b.drop_first())) + enc_num(x as nat));
    }
}

pub open spec fn parse_bytes_items_at(s: Seq<char>, i: int, n: nat) -> Option<(Seq<u8>, int)>
    decreases n,
{
    if n == 0 {
        Some((Seq::empty(), i))
    } else {
        match parse_num_at(s, i) {
            None => None,
            Some((v, j)) => if v <= 255 {
                match parse_bytes_items_at(s, j, (n - 1) as nat) {
                    None => None,
                    Some((b, e)) => Some((seq![v as u8] + b, e)),
                }
            } else {
                None
            },
        }
    }
}

/// A byte string of `n` bytes that parses holds at least `n` characters of
/// text.
pub proof fn lemma_bytes_items_bound(s: Seq<char>, i: int, n: nat)
    requires
        n > 0,
        parse_bytes_items_at(s, i, n) is Some,
    ensures
        0 <= i,
        i + n <= s.len(),
    decreases n,
{
    lemma_parse_num_progress(s, i);
    let e = parse_num_at(s, i)->Some_0.1;
    if n > 1 {
        lemma_bytes_items_bound(s, e, (n - 1) as nat);
    }
}

pub open spec fn parse_bytes_at(s: Seq<char>, i: int) -> Option<(Seq<u8>, int)> {
    match parse_num_at(s, i) {
        None => None,
        Some((n, j)) => parse_bytes_items_at(s, j, n),
    }
}

pub proof fn lemma_parse_bytes_items_of(s: Seq<char>, i: int, b: Seq<u8>)
    requires
        starts_with_at(s, i, enc_bytes_items(b)),
    ensures
        parse_bytes_items_at(s, i, b.len()) == Some((b, i + enc_bytes_items(b).len())),
    decreases b.len(),
{
    if b.len() == 0 {
        assert(b =~= Seq::<u8>::empty());
    } else {
        let v = b.first();
        let b2 = b.drop_first();
        lemma_starts_with_concat(s, i, enc_num(v as nat), enc_bytes_items(b2));
        lemma_parse_num_of(s, i, v as nat);
        let j = i + enc_num(v as nat).len();
        lemma_parse_bytes_items_of(s, j, b2);
        assert(seq![v] + b2 =~= b);
    }
}

pub proof fn lemma_parse_bytes_of(s: Seq<char>, i: int, b: Seq<u8>)
    requires
        starts_with_at(s, i, enc_bytes(b)),
    ensures
        parse_bytes_at(s, i) == Some((b, i + enc_bytes(b).len())),
{
    lemma_starts_with_concat(s, i, enc_num(b.len()), enc_bytes_items(b));
    lemma_parse_num_of(s, i, b.len());
    lemma_parse_bytes_items_of(s, i + enc_num(b.len()).len(), b);
}

/// What the byte-items parser accepts is exactly the encoding of the bytes it
/// returns, and it returns as many as asked.
pub proof fn lemma_parse_bytes_items_sound(s: Seq<char>, i: int, n: nat)
    requires
        0 <= i <= s.len(),
        parse_bytes_items_at(s, i, n) is Some,
    ensures
        ({
            let (b, e) = parse_bytes_items_at(s, i, n)->Some_0;
            &&& b.len() == n
            &&& starts_with_at(s, i, enc_bytes_items(b))
            &&& e == i + enc_bytes_items(b).len()
        }),
    decreases n,
{
    if n == 0 {
        assert(s.subrange(i, i) =~= Seq::<char>::empty());
    } else {
        lemma_parse_num_sound(s, i);
        let (v, j) = parse_num_at(s, i)->Some_0;
        lemma_parse_bytes_items_sound(s, j, (n - 1) as nat);
        let (b2, e) = parse_bytes_items_at(s, j, (n - 1) as nat)->Some_0;
        lemma_starts_with_join(s, i, enc_num(v), enc_bytes_items(b2));
        let b = seq![v as u8] + b2;
        assert(b.first() == v as u8);
        assert(b.first() as nat == v);
        assert(b.drop_first() =~= b2);
    }
}

/// What the byte-string parser accepts is exactly the encoding of the bytes
/// it returns.
pub proof fn lemma_parse_bytes_sound(s: Seq<char>, i: int)
    requires
        parse_bytes_at(s, i) is Some,
    ensures
        ({
            let (b, e) = parse_bytes_at(s, i)->Some_0;
            &&& starts_with_at(s, i, enc_bytes(b))
            &&& e == i + enc_bytes(b).len()
        }),
{
    lemma_parse_num_sound(s, i);
    lemma_parse_num_progress(s, i);
    let (n, j) = parse_num_at(s, i)->Some_0;
    lemma_parse_bytes_items_sound(s, j, n);
    let (b, e) = parse_bytes_items_at(s, j, n)->Some_0;
    lemma_starts_with_join(s, i, enc_num(n), enc_bytes_items(b));
}

// ---------------------------------------------------------------------------
// Named fields
// ---------------------------------------------------------------------------

pub open spec fn enc_str_field(key: Seq<char>, x: Seq<char>) -> Seq<char> {
    key + enc_str(x)
}

pub open spec fn parse_str_field_at(s: Seq<char>, i: int, key: Seq<char>) -> Option<
    (Seq<char>, int),
> {
    if starts_with_at(s, i, key) {
        parse_str_at(s, i + key.len())
    } else {
        None
    }
}

pub proof fn lemma_parse_str_field_of(s: Seq<char>, i: int, key: Seq<char>, x: Seq<char>)
    requires
        starts_with_at(s, i, enc_str_field(key, x)),
    ensures
        parse_str_field_at(s, i, key) == Some((x, i + enc_str_field(key, x).len())),
{
    lemma_starts_with_concat(s, i, key, enc_str(x));
    lemma_parse_str_of(s, i + key.len(), x);
}

pub open spec fn enc_u32_field(key: Seq<char>, n: u32) -> Seq<char> {
    key + enc_num(n as nat)
}

pub open spec fn parse_u32_field_at(s: Seq<char>, i: int, key: Seq<char>) -> Option<(u32, int)> {
    if starts_with_at(s, i, key) {
        match parse_num_at(s, i + key.len()) {
            None => None,
            Some((n, j)) => if n <= u32::MAX {
                Some((n as u32, j))
            } else {
                None
            },
        }
    } else {
        None
    }
}

pub proof fn lemma_parse_u32_field_of(s: Seq<char>, i: int, key: Seq<char>, n: u32)
    requires
        starts_with_at(s, i, enc_u32_field(key, n)),
    ensures
        parse_u32_field_at(s, i, key) == Some((n, i + enc_u32_field(key, n).len())),
{
    lemma_starts_with_concat(s, i, key, enc_num(n as nat));
    lemma_parse_num_of(s, i + key.len(), n as nat);
}

pub open spec fn enc_list_field(key: Seq<char>, l: Seq<Seq<char>>) -> Seq<char> {
    key + enc_list(l)
}

pub open spec fn parse_list_field_at(s: Seq<char>, i: int, key: Seq<char>) -> Option<
    (Seq<Seq<char>>, int),
> {
    if starts_with_at(s, i, key) {
        parse_list_at(s, i + key.len())
    } else {
        None
    }
}

pub proof fn lemma_parse_list_field_of(s: Seq<char>, i: int, key: Seq<char>, l: Seq<Seq<char>>)
    requires
        starts_with_at(s, i, enc_list_field(key, l)),
    ensures
        parse_list_field_at(s, i, key) == Some((l, i + enc_list_field(key, l).len())),
{
    lemma_starts_with_concat(s, i, key, enc_list(l));
    lemma_parse_list_of(s, i + key.len(), l);
}

pub open spec fn enc_bytes_field(key: Seq<char>, b: Seq<u8>) -> Seq<char> {
    key + enc_bytes(b)
}

pub open spec fn parse_bytes_field_at(s: Seq<char>, i: int, key: Seq<char>) -> Option<
    (Seq<u8>, int),
> {
    if starts_with_at(s, i, key) {
        parse_bytes_at(s, i + key.len())
    } else {
        None
    }
}

pub proof fn lemma_parse_bytes_field_of(s: Seq<char>, i: int, key: Seq<char>, b: Seq<u8>)
    requires
        starts_with_at(s, i, enc_bytes_field(key, b)),
    ensures
        parse_bytes_field_at(s, i, key) == Some((b, i + enc_bytes_field(key, b).len())),
{
    lemma_starts_with_concat(s, i, key, enc_bytes(b));
    lemma_parse_bytes_of(s, i + key.len(), b);
}

/// What a string-field parser accepts is exactly its key and the encoding of
/// the string it returns.
pub proof fn lemma_parse_str_field_sound(s: Seq<char>, i: int, key: Seq<char>)
    requires
        parse_str_field_at(s, i, key) is Some,
    ensures
        ({
            let (x, e) = parse_str_field_at(s, i, key)->Some_0;
            &&& starts_with_at(s, i, enc_str_field(key, x))
            &&& e == i + enc_str_field(key, x).len()
        }),
{
    lemma_parse_str_sound(s, i + key.len());
    let (x, e) = parse_str_at(s, i + key.len())->Some_0;
    lemma_starts_with_join(s, i, key, enc_str(x));
}

/// What a count-field parser accepts is exactly its key and the encoding of
/// the count it returns.
pub proof fn lemma_parse_u32_field_sound(s: Seq<char>, i: int, key: Seq<char>)
    requires
        parse_u32_field_at(s, i, key) is Some,
    ensures
        ({
            let (n, e) = parse_u32_field_at(s, i, key)->Some_0;
            &&& starts_with_at(s, i, enc_u32_field(key, n))
            &&& e == i + enc_u32_field(key, n).len()
        }),
{
    lemma_parse_num_sound(s, i + key.len());
    let (n, e) = parse_num_at(s, i + key.len())->Some_0;
    assert((n as u32) as nat == n);
    lemma_starts_with_join(s, i, key, enc_num(n));
}

/// What a list-field parser accepts is exactly its key and the encoding of
/// the list it returns.
pub proof fn lemma_parse_list_field_sound(s: Seq<char>, i: int, key: Seq<char>)
    requires
        parse_list_field_at(s, i, key) is Some,
    ensures
        ({
            let (l, e) = parse_list_field_at(s, i, key)->Some_0;
            &&& starts_with_at(s, i, enc_list_field(key, l))
            &&& e == i + enc_list_field(key, l).len()
        }),
{
    lemma_parse_list_sound(s, i + key.len());
    let (l, e) = parse_list_at(s, i + key.len())->Some_0;
    lemma_starts_with_join(s, i, key, enc_list(l));
}

/// What a byte-string-field parser accepts is exactly its key and the
/// encoding of the bytes it returns.
pub proof fn lemma_parse_bytes_field_sound(s: Seq<char>, i: int, key: Seq<char>)
    requires
        parse_bytes_field_at(s, i, key) is Some,
    ensures
        ({
            let (b, e) = parse_bytes_field_at(s, i, key)->Some_0;
            &&& starts_with_at(s, i, enc_bytes_field(key, b))
            &&& e == i + enc_bytes_field(key, b).len()
        }),
{
    lemma_parse_bytes_sound(s, i + key.len());
    let (b, e) = parse_bytes_at(s, i + key.len())->Some_0;
    lemma_starts_with_join(s, i, key, enc_bytes(b));
}

// ---------------------------------------------------------------------------
// The encryption configuration object
// ---------------------------------------------------------------------------

pub open spec fn enc_aead(a: AeadConfigView) -> Seq<char> {
    seq!['{'] + enc_bytes_field("key:"@, a.key) + enc_bytes_field("nonce:"@, a.nonce)
        + enc_bytes_field("ad:"@, a.ad) + seq!['}']
}

pub open spec fn parse_aead_at(s: Seq<char>, i: int) -> Option<(AeadConfigView, int)> {
    if i < s.len() && s[i] == '{' {
        match parse_bytes_field_at(s, i + 1, "key:"@) {
            None => None,
            Some((key, i1)) => match parse_bytes_field_at(s, i1, "nonce:"@) {
                None => None,
                Some((nonce, i2)) => match parse_bytes_field_at(s, i2, "ad:"@) {
                    None => None,
                    Some((ad, i3)) => if i3 < s.len() && s[i3] == '}' {
                        Some((AeadConfigView { key, nonce, ad }, i3 + 1))
                    } else {
                        None
                    },
                },
            },
        }
    } else {
        None
    }
}

pub proof fn lemma_parse_aead_of(s: Seq<char>, i: int, a: AeadConfigView)
    requires
        starts_with_at(s, i, enc_aead(a)),
    ensures
        parse_aead_at(s, i) == Some((a, i + enc_aead(a).len())),
{
    let f1 = enc_bytes_field("key:"@, a.key);
    let f2 = enc_bytes_field("nonce:"@, a.nonce);
    let f3 = enc_bytes_field("ad:"@, a.ad);
    lemma_starts_with_concat(s, i, seq!['{'] + f1 + f2 + f3, seq!['}']);
    lemma_starts_with_concat(s, i, seq!['{'] + f1 + f2, f3);
    lemma_starts_with_concat(s, i, seq!['{'] + f1, f2);
    lemma_starts_with_concat(s, i, seq!['{'], f1);
    assert(s[i] == '{') by {
        assert(s.subrange(i, i + 1)[0] == seq!['{'][0]);
    }
    lemma_parse_bytes_field_of(s, i + 1, "key:"@, a.key);
    lemma_parse_bytes_field_of(s, i + 1 + f1.len(), "nonce:"@, a.nonce);
    lemma_parse_bytes_field_of(s, i + 1 + f1.len() + f2.len(), "ad:"@, a.ad);
    let i3 = i + 1 + f1.len() + f2.len() + f3.len();
    assert(s[i3] == '}') by {
        assert(s.subrange(i3, i3 + 1)[0] == seq!['}'][0]);
    }
}

/// What the configuration-object parser accepts is exactly the encoding of
/// the configuration it returns.
pub proof fn lemma_parse_aead_sound(s: Seq<char>, i: int)
    requires
        0 <= i,
        parse_aead_at(s, i) is Some,
    ensures
        ({
            let (a, e) = parse_aead_at(s, i)->Some_0;
            &&& starts_with_at(s, i, enc_aead(a))
            &&& e == i + enc_aead(a).len()
        }),
{
    let (key, i1) = parse_bytes_field_at(s, i + 1, "key:"@)->Some_0;
    let (nonce, i2) = parse_bytes_field_at(s, i1, "nonce:"@)->Some_0;
    let (ad, i3) = parse_bytes_field_at(s, i2, "ad:"@)->Some_0;
    lemma_parse_bytes_field_sound(s, i + 1, "key:"@);
    lemma_parse_bytes_field_sound(s, i1, "nonce:"@);
    lemma_parse_bytes_field_sound(s, i2, "ad:"@);
    let f1 = enc_bytes_field("key:"@, key);
    let f2 = enc_bytes_field("nonce:"@, nonce);
    let f3 = enc_bytes_field("ad:"@, ad);
    lemma_starts_with_char(s, i, '{');
    lemma_starts_with_char(s, i3, '}');
    lemma_starts_with_join(s, i, seq!['{'], f1);
    lemma_starts_with_join(s, i, seq!['{'] + f1, f2);
    lemma_starts_with_join(s, i, seq!['{'] + f1 + f2, f3);
    lemma_starts_with_join(s, i, seq!['{'] + f1 + f2 + f3, seq!['}']);
}

// ---------------------------------------------------------------------------
// The file record object
// ---------------------------------------------------------------------------

/// The optional task field: present only when a task is associated, and
/// wholly absent otherwise — absence is not an empty string.
pub open spec fn enc_task_id(t: Option<Seq<char>>) -> Seq<char> {
    match t {
        Some(x) => enc_str_field("task_id:"@, x),
        None => Seq::empty(),
    }
}

pub open spec fn enc_file_info(f: FileInfoView) -> Seq<char> {
    seq!['{'] + enc_str_field("user_id:"@, f.user_id) + enc_str_field("file_name:"@, f.file_name)
        + enc_str_field("sha256:"@, f.sha256) + enc_u32_field("file_size:"@, f.file_size)
        + enc_str_field("access_path:"@, f.access_path) + enc_task_id(f.task_id) + enc_list_field(
        "collaborator_list:"@,
        f.collaborator_list,
    ) + "key_config:"@ + enc_aead(f.key_config) + seq!['}']
}

pub open spec fn parse_task_id_at(s: Seq<char>, i: int) -> Option<(Option<Seq<char>>, int)> {
    if i < s.len() && s[i] == 't' {
        match parse_str_field_at(s, i, "task_id:"@) {
            None => None,
            Some((x, j)) => Some((Some(x), j)),
        }
    } else {
        Some((None, i))
    }
}

pub open spec fn parse_file_info_at(s: Seq<char>, i: int) -> Option<(FileInfoView, int)> {
    if i < s.len() && s[i] == '{' {
        match parse_str_field_at(s, i + 1, "user_id:"@) {
            None => None,
            Some((user_id, i1)) => match parse_str_field_at(s, i1, "file_name:"@) {
                None => None,
                Some((file_name, i2)) => match parse_str_field_at(s, i2, "sha256:"@) {
                    None => None,
                    Some((sha256, i3)) => match parse_u32_field_at(s, i3, "file_size:"@) {
                        None => None,
                        Some((file_size, i4)) => match parse_str_field_at(s, i4, "access_path:"@) {
                            None => None,
                            Some((access_path, i5)) => match parse_task_id_at(s, i5) {
                                None => None,
                                Some((task_id, i6)) => match parse_list_field_at(
                                    s,
                                    i6,
                                    "collaborator_list:"@,
                                ) {
                                    None => None,
                                    Some((collaborator_list, i7)) => if starts_with_at(
                                        s,
                                        i7,
                                        "key_config:"@,
                                    ) {
                                        match parse_aead_at(s, i7 + "key_config:"@.len()) {
                                            None => None,
                                            Some((key_config, i8)) => if i8 < s.len() && s[i8]
                                                == '}' {
                                                Some(
                                                    (
                                                        FileInfoView {
                                                            user_id,
                                                            file_name,
                                                            sha256,
                                                            file_size,
                                                            access_path,
                                                            task_id,
                                                            collaborator_list,
                                                            key_config,
                                                        },
                                                        i8 + 1,
                                                    ),
                                                )
                                            } else {
                                                None
                                            },
                                        }
                                    } else {
                                        None
                                    },
                                },
                            },
                        },
                    },
                },
            },
        }
    } else {
        None
    }
}

#[verifier::rlimit(100)]
#[verifier::spinoff_prover]
pub proof fn lemma_parse_file_info_of(s: Seq<char>, i: int, f: FileInfoView)
    requires
        starts_with_at(s, i, enc_file_info(f)),
    ensures
        parse_file_info_at(s, i) == Some((f, i + enc_file_info(f).len())),
{
    let f1 = enc_str_field("user_id:"@, f.user_id);
    let f2 = enc_str_field("file_name:"@, f.file_name);
    let f3 = enc_str_field("sha256:"@, f.sha256);
    let f4 = enc_u32_field("file_size:"@, f.file_size);
    let f5 = enc_str_field("access_path:"@, f.access_path);
    let f6 = enc_task_id(f.task_id);
    let f7 = enc_list_field("collaborator_list:"@, f.collaborator_list);
    let f8 = enc_aead(f.key_config);
    let a1 = seq!['{'] + f1;
    let a2 = a1 + f2;
    let a3 = a2 + f3;
    let a4 = a3 + f4;
    let a5 = a4 + f5;
    let a6 = a5 + f6;
    let a7 = a6 + f7;
    let a8 = a7 + "key_config:"@;
    let a9 = a8 + f8;
    lemma_starts_with_concat(s, i, a9, seq!['}']);
    lemma_starts_with_concat(s, i, a8, f8);
    lemma_starts_with_concat(s, i, a7, "key_config:"@);
    lemma_starts_with_concat(s, i, a6, f7);
    lemma_starts_with_concat(s, i, a5, f6);
    lemma_starts_with_concat(s, i, a4, f5);
    lemma_starts_with_concat(s, i, a3, f4);
    lemma_starts_with_concat(s, i, a2, f3);
    lemma_starts_with_concat(s, i, a1, f2);
    lemma_starts_with_concat(s, i, seq!['{'], f1);
    assert(s[i] == '{') by {
        assert(s.subrange(i, i + 1)[0] == seq!['{'][0]);
    }
    lemma_parse_str_field_of(s, i + 1, "user_id:"@, f.user_id);
    lemma_parse_str_field_of(s, i + a1.len(), "file_name:"@, f.file_name);
    lemma_parse_str_field_of(s, i + a2.len(), "sha256:"@, f.sha256);
    lemma_parse_u32_field_of(s, i + a3.len(), "file_size:"@, f.file_size);
    lemma_parse_str_field_of(s, i + a4.len(), "access_path:"@, f.access_path);
    let i5 = i + a5.len();
    reveal_strlit("task_id:");
    reveal_strlit("collaborator_list:");
    match f.task_id {
        Some(x) => {
            assert(s[i5] == 't') by {
                lemma_starts_with_concat(s, i5, "task_id:"@, enc_str(x));
                assert(s.subrange(i5, i5 + "task_id:"@.len())[0] == 't');
            }
            lemma_parse_str_field_of(s, i5, "task_id:"@, x);
        },
        None => {
            assert(s[i5] == 'c') by {
                lemma_starts_with_concat(s, i5, "collaborator_list:"@, enc_list(f.collaborator_list));
                assert(s.subrange(i5, i5 + "collaborator_list:"@.len())[0] == 'c');
            }
        },
    }
    lemma_parse_list_field_of(s, i + a6.len(), "collaborator_list:"@, f.collaborator_list);
    lemma_parse_aead_of(s, i + a8.len(), f.key_config);
    let i8 = i + a9.len();
    assert(s[i8] == '}') by {
        assert(s.subrange(i8, i8 + 1)[0] == seq!['}'][0]);
    }
}

/// What the file-record parser accepts is exactly the encoding of the record
/// it returns.
#[verifier::rlimit(100)]
#[verifier::spinoff_prover]
pub proof fn lemma_parse_file_info_sound(s: Seq<char>, i: int)
    requires
        0 <= i,
        parse_file_info_at(s, i) is Some,
    ensures
        ({
            let (f, e) = parse_file_info_at(s, i)->Some_0;
            &&& starts_with_at(s, i, enc_file_info(f))
            &&& e == i + enc_file_info(f).len()
        }),
{
    let (user_id, i1) = parse_str_field_at(s, i + 1, "user_id:"@)->Some_0;
    let (file_name, i2) = parse_str_field_at(s, i1, "file_name:"@)->Some_0;
    let (sha256, i3) = parse_str_field_at(s, i2, "sha256:"@)->Some_0;
    let (file_size, i4) = parse_u32_field_at(s, i3, "file_size:"@)->Some_0;
    let (access_path, i5) = parse_str_field_at(s, i4, "access_path:"@)->Some_0;
    let (task_id, i6) = parse_task_id_at(s, i5)->Some_0;
    let (collaborator_list, i7) = parse_list_field_at(s, i6, "collaborator_list:"@)->Some_0;
    let (key_config, i8) = parse_aead_at(s, i7 + "key_config:"@.len() as int)->Some_0;
    lemma_parse_str_field_sound(s, i + 1, "user_id:"@);
    lemma_parse_str_field_sound(s, i1, "file_name:"@);
    lemma_parse_str_field_sound(s, i2, "sha256:"@);
    lemma_parse_u32_field_sound(s, i3, "file_size:"@);
    lemma_parse_str_field_sound(s, i4, "access_path:"@);
    let f1 = enc_str_field("user_id:"@, user_id);
    let f2 = enc_str_field("file_name:"@, file_name);
    let f3 = enc_str_field("sha256:"@, sha256);
    let f4 = enc_u32_field("file_size:"@, file_size);
    let f5 = enc_str_field("access_path:"@, access_path);
    let f6 = enc_task_id(task_id);
    match task_id {
        Some(x) => {
            lemma_parse_str_field_sound(s, i5, "task_id:"@);
        },
        None => {
            assert(s.subrange(i5, i5) =~= Seq::<char>::empty());
            assert(starts_with_at(s, i5, f6));
        },
    }
    lemma_parse_list_field_sound(s, i6, "collaborator_list:"@);
    let f7 = enc_list_field("collaborator_list:"@, collaborator_list);
    lemma_parse_aead_sound(s, i7 + "key_config:"@.len() as int);
    let f8 = enc_aead(key_config);
    lemma_starts_with_char(s, i, '{');
    lemma_starts_with_char(s, i8, '}');
    let a1 = seq!['{'] + f1;
    let a2 = a1 + f2;
    let a3 = a2 + f3;
    let a4 = a3 + f4;
    let a5 = a4 + f5;
    let a6 = a5 + f6;
    let a7 = a6 + f7;
    let a8 = a7 + "key_config:"@;
    let a9 = a8 + f8;
    lemma_starts_with_join(s, i, seq!['{'], f1);
    lemma_starts_with_join(s, i, a1, f2);
    lemma_starts_with_join(s, i, a2, f3);
    lemma_starts_with_join(s, i, a3, f4);
    lemma_starts_with_join(s, i, a4, f5);
    lemma_starts_with_join(s, i, a5, f6);
    lemma_starts_with_join(s, i, a6, f7);
    lemma_starts_with_join(s, i, a7, "key_config:"@);
    lemma_starts_with_join(s, i, a8, f8);
    lemma_starts_with_join(s, i, a9, seq!['}']);
}

// ---------------------------------------------------------------------------
// The payloads
// ---------------------------------------------------------------------------

pub open spec fn enc_create_req(p: CreateFileRequestView) -> Seq<char> {
    enc_str_field("file_name:"@, p.file_name) + enc_str_field("sha256:"@, p.sha256)
        + enc_u32_field("file_size:"@, p.file_size) + enc_str_field("user_id:"@, p.user_id)
        + enc_str_field("user_token:"@, p.user_token)
}

pub open spec fn parse_create_req_at(s: Seq<char>, i: int) -> Option<(CreateFileRequestView, int)> {
    match parse_str_field_at(s, i, "file_name:"@) {
        None => None,
        Some((file_name, i1)) => match parse_str_field_at(s, i1, "sha256:"@) {
            None => None,
            Some((sha256, i2)) => match parse_u32_field_at(s, i2, "file_size:"@) {
                None => None,
                Some((file_size, i3)) => match parse_str_field_at(s, i3, "user_id:"@) {
                    None => None,
                    Some((user_id, i4)) => match parse_str_field_at(s, i4, "user_token:"@) {
                        None => None,
                        Some((user_token, i5)) => Some(
                            (
                                CreateFileRequestView {
                                    file_name,
                                    sha256,
                                    file_size,
                                    user_id,
                                    user_token,
                                },
                                i5,
                            ),
                        ),
                    },
                },
            },
        },
    }
}

pub proof fn lemma_parse_create_req_of(s: Seq<char>, i: int, p: CreateFileRequestView)
    requires
        starts_with_at(s, i, enc_create_req(p)),
    ensures
        parse_create_req_at(s, i) == Some((p, i + enc_create_req(p).len())),
{
    let f1 = enc_str_field("file_name:"@, p.file_name);
    let f2 = enc_str_field("sha256:"@, p.sha256);
    let f3 = enc_u32_field("file_size:"@, p.file_size);
    let f4 = enc_str_field("user_id:"@, p.user_id);
    let f5 = enc_str_field("user_token:"@, p.user_token);
    lemma_starts_with_concat(s, i, f1 + f2 + f3 + f4, f5);
    lemma_starts_with_concat(s, i, f1 + f2 + f3, f4);
    lemma_starts_with_concat(s, i, f1 + f2, f3);
    lemma_starts_with_concat(s, i, f1, f2);
    lemma_parse_str_field_of(s, i, "file_name:"@, p.file_name);
    lemma_parse_str_field_of(s, i + f1.len(), "sha256:"@, p.sha256);
    lemma_parse_u32_field_of(s, i + f1.len() + f2.len(), "file_size:"@, p.file_size);
    lemma_parse_str_field_of(s, i + f1.len() + f2.len() + f3.len(), "user_id:"@, p.user_id);
    lemma_parse_str_field_of(
        s,
        i + f1.len() + f2.len() + f3.len() + f4.len(),
        "user_token:"@,
        p.user_token,
    );
}

pub open spec fn enc_get_req(p: GetFileRequestView) -> Seq<char> {
    enc_str_field("file_id:"@, p.file_id) + enc_str_field("user_id:"@, p.user_id) + enc_str_field(
        "user_token:"@,
        p.user_token,
    )
}

pub open spec fn parse_get_req_at(s: Seq<char>, i: int) -> Option<(GetFileRequestView, int)> {
    match parse_str_field_at(s, i, "file_id:"@) {
        None => None,
        Some((file_id, i1)) => match parse_str_field_at(s, i1, "user_id:"@) {
            None => None,
            Some((user_id, i2)) => match parse_str_field_at(s, i2, "user_token:"@) {
                None => None,
                Some((user_token, i3)) => Some(
                    (GetFileRequestView { file_id, user_id, user_token }, i3),
                ),
            },
        },
    }
}

pub proof fn lemma_parse_get_req_of(s: Seq<char>, i: int, p: GetFileRequestView)
    requires
        starts_with_at(s, i, enc_get_req(p)),
    ensures
        parse_get_req_at(s, i) == Some((p, i + enc_get_req(p).len())),
{
    let f1 = enc_str_field("file_id:"@, p.file_id);
    let f2 = enc_str_field("user_id:"@, p.user_id);
    let f3 = enc_str_field("user_token:"@, p.user_token);
    lemma_starts_with_concat(s, i, f1 + f2, f3);
    lemma_starts_with_concat(s, i, f1, f2);
    lemma_parse_str_field_of(s, i, "file_id:"@, p.file_id);
    lemma_parse_str_field_of(s, i + f1.len(), "user_id:"@, p.user_id);
    lemma_parse_str_field_of(s, i + f1.len() + f2.len(), "user_token:"@, p.user_token);
}

pub open spec fn enc_del_req(p: DeleteFileRequestView) -> Seq<char> {
    enc_str_field("file_id:"@, p.file_id) + enc_str_field("user_id:"@, p.user_id) + enc_str_field(
        "user_token:"@,
        p.user_token,
    )
}

pub open spec fn parse_del_req_at(s: Seq<char>, i: int) -> Option<(DeleteFileRequestView, int)> {
    match parse_str_field_at(s, i, "file_id:"@) {
        None => None,
        Some((file_id, i1)) => match parse_str_field_at(s, i1, "user_id:"@) {
            None => None,
            Some((user_id, i2)) => match parse_str_field_at(s, i2, "user_token:"@) {
                None => None,
                Some((user_token, i3)) => Some(
                    (DeleteFileRequestView { file_id, user_id, user_token }, i3),
                ),
            },
        },
    }
}

pub proof fn lemma_parse_del_req_of(s: Seq<char>, i: int, p: DeleteFileRequestView)
    requires
        starts_with_at(s, i, enc_del_req(p)),
    ensures
        parse_del_req_at(s, i) == Some((p, i + enc_del_req(p).len())),
{
    let f1 = enc_str_field("file_id:"@, p.file_id);
    let f2 = enc_str_field("user_id:"@, p.user_id);
    let f3 = enc_str_field("user_token:"@, p.user_token);
    lemma_starts_with_concat(s, i, f1 + f2, f3);
    lemma_starts_with_concat(s, i, f1, f2);
    lemma_parse_str_field_of(s, i, "file_id:"@, p.file_id);
    lemma_parse_str_field_of(s, i + f1.len(), "user_id:"@, p.user_id);
    lemma_parse_str_field_of(s, i + f1.len() + f2.len(), "user_token:"@, p.user_token);
}

pub open spec fn enc_list_req(p: ListFileRequestView) -> Seq<char> {
    enc_str_field("user_id:"@, p.user_id) + enc_str_field("user_token:"@, p.user_token)
}

pub open spec fn parse_list_req_at(s: Seq<char>, i: int) -> Option<(ListFileRequestView, int)> {
    match parse_str_field_at(s, i, "user_id:"@) {
        None => None,
        Some((user_id, i1)) => match parse_str_field_at(s, i1, "user_token:"@) {
            None => None,
            Some((user_token, i2)) => Some((ListFileRequestView { user_id, user_token }, i2)),
        },
    }
}

pub proof fn lemma_parse_list_req_of(s: Seq<char>, i: int, p: ListFileRequestView)
    requires
        starts_with_at(s, i, enc_list_req(p)),
    ensures
        parse_list_req_at(s, i) == Some((p, i + enc_list_req(p).len())),
{
    let f1 = enc_str_field("user_id:"@, p.user_id);
    let f2 = enc_str_field("user_token:"@, p.user_token);
    lemma_starts_with_concat(s, i, f1, f2);
    lemma_parse_str_field_of(s, i, "user_id:"@, p.user_id);
    lemma_parse_str_field_of(s, i + f1.len(), "user_token:"@, p.user_token);
}

pub open spec fn enc_create_resp(p: CreateFileResponseView) -> Seq<char> {
    enc_str_field("file_id:"@, p.file_id) + enc_str_field("access_path:"@, p.access_path)
        + "key_config:"@ + enc_aead(p.key_config)
}

pub open spec fn parse_create_resp_at(s: Seq<char>, i: int) -> Option<
    (CreateFileResponseView, int),
> {
    match parse_str_field_at(s, i, "file_id:"@) {
        None => None,
        Some((file_id, i1)) => match parse_str_field_at(s, i1, "access_path:"@) {
            None => None,
            Some((access_path, i2)) => if starts_with_at(s, i2, "key_config:"@) {
                match parse_aead_at(s, i2 + "key_config:"@.len()) {
                    None => None,
                    Some((key_config, i3)) => Some(
                        (CreateFileResponseView { file_id, access_path, key_config }, i3),
                    ),
                }
            } else {
                None
            },
        },
    }
}

pub proof fn lemma_parse_create_resp_of(s: Seq<char>, i: int, p: CreateFileResponseView)
    requires
        starts_with_at(s, i, enc_create_resp(p)),
    ensures
        parse_create_resp_at(s, i) == Some((p, i + enc_create_resp(p).len())),
{
    let f1 = enc_str_field("file_id:"@, p.file_id);
    let f2 = enc_str_field("access_path:"@, p.access_path);
    let f4 = enc_aead(p.key_config);
    lemma_starts_with_concat(s, i, f1 + f2 + "key_config:"@, f4);
    lemma_starts_with_concat(s, i, f1 + f2, "key_config:"@);
    lemma_starts_with_concat(s, i, f1, f2);
    lemma_parse_str_field_of(s, i, "file_id:"@, p.file_id);
    lemma_parse_str_field_of(s, i + f1.len(), "access_path:"@, p.access_path);
    lemma_parse_aead_of(s, i + f1.len() + f2.len() + "key_config:"@.len(), p.key_config);
}

pub open spec fn enc_get_resp(p: GetFileResponseView) -> Seq<char> {
    "file_info:"@ + enc_file_info(p.file_info)
}

pub open spec fn parse_get_resp_at(s: Seq<char>, i: int) -> Option<(GetFileResponseView, int)> {
    if starts_with_at(s, i, "file_info:"@) {
        match parse_file_info_at(s, i + "file_info:"@.len()) {
            None => None,
            Some((file_info, i1)) => Some((GetFileResponseView { file_info }, i1)),
        }
    } else {
        None
    }
}

pub proof fn lemma_parse_get_resp_of(s: Seq<char>, i: int, p: GetFileResponseView)
    requires
        starts_with_at(s, i, enc_get_resp(p)),
    ensures
        parse_get_resp_at(s, i) == Some((p, i + enc_get_resp(p).len())),
{
    lemma_starts_with_concat(s, i, "file_info:"@, enc_file_info(p.file_info));
    lemma_parse_file_info_of(s, i + "file_info:"@.len(), p.file_info);
}

pub open spec fn enc_del_resp(p: DeleteFileResponseView) -> Seq<char> {
    "file_info:"@ + enc_file_info(p.file_info)
}

pub open spec fn parse_del_resp_at(s: Seq<char>, i: int) -> Option<(DeleteFileResponseView, int)> {
    if starts_with_at(s, i, "file_info:"@) {
        match parse_file_info_at(s, i + "file_info:"@.len()) {
            None => None,
            Some((file_info, i1)) => Some((DeleteFileResponseView { file_info }, i1)),
        }
    } else {
        None
    }
}

pub proof fn lemma_parse_del_resp_of(s: Seq<char>, i: int, p: DeleteFileResponseView)
    requires
        starts_with_at(s, i, enc_del_resp(p)),
    ensures
        parse_del_resp_at(s, i) == Some((p, i + enc_del_resp(p).len())),
{
    lemma_starts_with_concat(s, i, "file_info:"@, enc_file_info(p.file_info));
    lemma_parse_file_info_of(s, i + "file_info:"@.len(), p.file_info);
}

pub open spec fn enc_list_resp(p: ListFileResponseView) -> Seq<char> {
    enc_list_field("list:"@, p.list)
}

pub open spec fn parse_list_resp_at(s: Seq<char>, i: int) -> Option<(ListFileResponseView, int)> {
    match parse_list_field_at(s, i, "list:"@) {
        None => None,
        Some((list, i1)) => Some((ListFileResponseView { list }, i1)),
    }
}

pub proof fn lemma_parse_list_resp_of(s: Seq<char>, i: int, p: ListFileResponseView)
    requires
        starts_with_at(s, i, enc_list_resp(p)),
    ensures
        parse_list_resp_at(s, i) == Some((p, i + enc_list_resp(p).len())),
{
    lemma_parse_list_field_of(s, i, "list:"@, p.list);
}

/// What each payload parser accepts is exactly the encoding of the payload it
/// returns.
pub proof fn lemma_parse_create_req_sound(s: Seq<char>, i: int)
    requires
        parse_create_req_at(s, i) is Some,
    ensures
        ({
            let (p, e) = parse_create_req_at(s, i)->Some_0;
            &&& starts_with_at(s, i, enc_create_req(p))
            &&& e == i + enc_create_req(p).len()
        }),
{
    let (file_name, i1) = parse_str_field_at(s, i, "file_name:"@)->Some_0;
    let (sha256, i2) = parse_str_field_at(s, i1, "sha256:"@)->Some_0;
    let (file_size, i3) = parse_u32_field_at(s, i2, "file_size:"@)->Some_0;
    let (user_id, i4) = parse_str_field_at(s, i3, "user_id:"@)->Some_0;
    let (user_token, i5) = parse_str_field_at(s, i4, "user_token:"@)->Some_0;
    lemma_parse_str_field_sound(s, i, "file_name:"@);
    lemma_parse_str_field_sound(s, i1, "sha256:"@);
    lemma_parse_u32_field_sound(s, i2, "file_size:"@);
    lemma_parse_str_field_sound(s, i3, "user_id:"@);
    lemma_parse_str_field_sound(s, i4, "user_token:"@);
    let f1 = enc_str_field("file_name:"@, file_name);
    let f2 = enc_str_field("sha256:"@, sha256);
    let f3 = enc_u32_field("file_size:"@, file_size);
    let f4 = enc_str_field("user_id:"@, user_id);
    let f5 = enc_str_field("user_token:"@, user_token);
    lemma_starts_with_join(s, i, f1, f2);
    lemma_starts_with_join(s, i, f1 + f2, f3);
    lemma_starts_with_join(s, i, f1 + f2 + f3, f4);
    lemma_starts_with_join(s, i, f1 + f2 + f3 + f4, f5);
}

/// What the get-request parser accepts is exactly the encoding of the payload
/// it returns.
pub proof fn lemma_parse_get_req_sound(s: Seq<char>, i: int)
    requires
        parse_get_req_at(s, i) is Some,
    ensures
        ({
            let (p, e) = parse_get_req_at(s, i)->Some_0;
            &&& starts_with_at(s, i, enc_get_req(p))
            &&& e == i + enc_get_req(p).len()
        }),
{
    let (file_id, i1) = parse_str_field_at(s, i, "file_id:"@)->Some_0;
    let (user_id, i2) = parse_str_field_at(s, i1, "user_id:"@)->Some_0;
    let (user_token, i3) = parse_str_field_at(s, i2, "user_token:"@)->Some_0;
    lemma_parse_str_field_sound(s, i, "file_id:"@);
    lemma_parse_str_field_sound(s, i1, "user_id:"@);
    lemma_parse_str_field_sound(s, i2, "user_token:"@);
    let f1 = enc_str_field("file_id:"@, file_id);
    let f2 = enc_str_field("user_id:"@, user_id);
    let f3 = enc_str_field("user_token:"@, user_token);
    lemma_starts_with_join(s, i, f1, f2);
    lemma_starts_with_join(s, i, f1 + f2, f3);
}

/// What the delete-request parser accepts is exactly the encoding of the
/// payload it returns.
pub proof fn lemma_parse_del_req_sound(s: Seq<char>, i: int)
    requires
        parse_del_req_at(s, i) is Some,
    ensures
        ({
            let (p, e) = parse_del_req_at(s, i)->Some_0;
            &&& starts_with_at(s, i, enc_del_req(p))
            &&& e == i + enc_del_req(p).len()
        }),
{
    let (file_id, i1) = parse_str_field_at(s, i, "file_id:"@)->Some_0;
    let (user_id, i2) = parse_str_field_at(s, i1, "user_id:"@)->Some_0;
    let (user_token, i3) = parse_str_field_at(s, i2, "user_token:"@)->Some_0;
    lemma_parse_str_field_sound(s, i, "file_id:"@);
    lemma_parse_str_field_sound(s, i1, "user_id:"@);
    lemma_parse_str_field_sound(s, i2, "user_token:"@);
    let f1 = enc_str_field("file_id:"@, file_id);
    let f2 = enc_str_field("user_id:"@, user_id);
    let f3 = enc_str_field("user_token:"@, user_token);
    lemma_starts_with_join(s, i, f1, f2);
    lemma_starts_with_join(s, i, f1 + f2, f3);
}

/// What the list-request parser accepts is exactly the encoding of the
/// payload it returns.
pub proof fn lemma_parse_list_req_sound(s: Seq<char>, i: int)
    requires
        parse_list_req_at(s, i) is Some,
    ensures
        ({
            let (p, e) = parse_list_req_at(s, i)->Some_0;
            &&& starts_with_at(s, i, enc_list_req(p))
            &&& e == i + enc_list_req(p).len()
        }),
{
    let (user_id, i1) = parse_str_field_at(s, i, "user_id:"@)->Some_0;
    let (user_token, i2) = parse_str_field_at(s, i1, "user_token:"@)->Some_0;
    lemma_parse_str_field_sound(s, i, "user_id:"@);
    lemma_parse_str_field_sound(s, i1, "user_token:"@);
    lemma_starts_with_join(
        s,
        i,
        enc_str_field("user_id:"@, user_id),
        enc_str_field("user_token:"@, user_token),
    );
}

/// What the create-response parser accepts is exactly the encoding of the
/// payload it returns.
pub proof fn lemma_parse_create_resp_sound(s: Seq<char>, i: int)
    requires
        parse_create_resp_at(s, i) is Some,
    ensures
        ({
            let (p, e) = parse_create_resp_at(s, i)->Some_0;
            &&& starts_with_at(s, i, enc_create_resp(p))
            &&& e == i + enc_create_resp(p).len()
        }),
{
    let (file_id, i1) = parse_str_field_at(s, i, "file_id:"@)->Some_0;
    let (access_path, i2) = parse_str_field_at(s, i1, "access_path:"@)->Some_0;
    let (key_config, i3) = parse_aead_at(s, i2 + "key_config:"@.len() as int)->Some_0;
    lemma_parse_str_field_sound(s, i, "file_id:"@);
    lemma_parse_str_field_sound(s, i1, "access_path:"@);
    lemma_parse_aead_sound(s, i2 + "key_config:"@.len() as int);
    let f1 = enc_str_field("file_id:"@, file_id);
    let f2 = enc_str_field("access_path:"@, access_path);
    let f4 = enc_aead(key_config);
    lemma_starts_with_join(s, i, f1, f2);
    lemma_starts_with_join(s, i, f1 + f2, "key_config:"@);
    lemma_starts_with_join(s, i, f1 + f2 + "key_config:"@, f4);
}

/// What the get-response parser accepts is exactly the encoding of the
/// payload it returns.
pub proof fn lemma_parse_get_resp_sound(s: Seq<char>, i: int)
    requires
        parse_get_resp_at(s, i) is Some,
    ensures
        ({
            let (p, e) = parse_get_resp_at(s, i)->Some_0;
            &&& starts_with_at(s, i, enc_get_resp(p))
            &&& e == i + enc_get_resp(p).len()
        }),
{
    lemma_parse_file_info_sound(s, i + "file_info:"@.len() as int);
    let (file_info, i1) = parse_file_info_at(s, i + "file_info:"@.len() as int)->Some_0;
    lemma_starts_with_join(s, i, "file_info:"@, enc_file_info(file_info));
}

/// What the delete-response parser accepts is exactly the encoding of the
/// payload it returns.
pub proof fn lemma_parse_del_resp_sound(s: Seq<char>, i: int)
    requires
        parse_del_resp_at(s, i) is Some,
    ensures
        ({
            let (p, e) = parse_del_resp_at(s, i)->Some_0;
            &&& starts_with_at(s, i, enc_del_resp(p))
            &&& e == i + enc_del_resp(p).len()
        }),
{
    lemma_parse_file_info_sound(s, i + "file_info:"@.len() as int);
    let (file_info, i1) = parse_file_info_at(s, i + "file_info:"@.len() as int)->Some_0;
    lemma_starts_with_join(s, i, "file_info:"@, enc_file_info(file_info));
}

/// What the list-response parser accepts is exactly the encoding of the
/// payload it returns.
pub proof fn lemma_parse_list_resp_sound(s: Seq<char>, i: int)
    requires
        parse_list_resp_at(s, i) is Some,
    ensures
        ({
            let (p, e) = parse_list_resp_at(s, i)->Some_0;
            &&& starts_with_at(s, i, enc_list_resp(p))
            &&& e == i + enc_list_resp(p).len()
        }),
{
    lemma_parse_list_field_sound(s, i, "list:"@);
}

// ---------------------------------------------------------------------------
// Whole messages
// ---------------------------------------------------------------------------

/// The tag a request carries on the wire: its variant's name.
pub open spec fn request_tag(v: DFSRequestView) -> Seq<char> {
    match v {
        DFSRequestView::Create(_) => "Create"@,
        DFSRequestView::Get(_) => "Get"@,
        DFSRequestView::List(_) => "List"@,
        DFSRequestView::Delete(_) => "Delete"@,
    }
}

/// The tag a response carries on the wire: its variant's name.
pub open spec fn response_tag(v: DFSResponseView) -> Seq<char> {
    match v {
        DFSResponseView::Create(_) => "Create"@,
        DFSResponseView::Get(_) => "Get"@,
        DFSResponseView::List(_) => "List"@,
        DFSResponseView::Delete(_) => "Delete"@,
    }
}

/// The closed set of tags the protocol knows.
pub open spec fn is_known_tag(t: Seq<char>) -> bool {
    t == "Create"@ || t == "Get"@ || t == "List"@ || t == "Delete"@
}

pub open spec fn enc_request_payload(v: DFSRequestView) -> Seq<char> {
    match v {
        DFSRequestView::Create(p) => enc_create_req(p),
        DFSRequestView::Get(p) => enc_get_req(p),
        DFSRequestView::List(p) => enc_list_req(p),
        DFSRequestView::Delete(p) => enc_del_req(p),
    }
}

/// What a request looks like on the wire: the tag field first, then the
/// payload's fields, all inside one object.
pub open spec fn enc_request(v: DFSRequestView) -> Seq<char> {
    seq!['{'] + "type:"@ + enc_str(request_tag(v)) + enc_request_payload(v) + seq!['}']
}

pub open spec fn enc_response_payload(v: DFSResponseView) -> Seq<char> {
    match v {
        DFSResponseView::Create(p) => enc_create_resp(p),
        DFSResponseView::Get(p) => enc_get_resp(p),
        DFSResponseView::List(p) => enc_list_resp(p),
        DFSResponseView::Delete(p) => enc_del_resp(p),
    }
}

/// What a response looks like on the wire.
pub open spec fn enc_response(v: DFSResponseView) -> Seq<char> {
    seq!['{'] + "type:"@ + enc_str(response_tag(v)) + enc_response_payload(v) + seq!['}']
}

/// The tag a wire text carries, and the position just after it — whether or
/// not the rest of the text parses.
pub open spec fn wire_tag_at(s: Seq<char>) -> Option<(Seq<char>, int)> {
    if s.len() >= 1 && s[0] == '{' && starts_with_at(s, 1, "type:"@) {
        parse_str_at(s, 1 + "type:"@.len() as int)
    } else {
        None
    }
}

/// The tag a wire text carries.
pub open spec fn wire_tag(s: Seq<char>) -> Option<Seq<char>> {
    match wire_tag_at(s) {
        None => None,
        Some((t, _)) => Some(t),
    }
}

/// The request a wire text stands for, if it stands for one.
pub open spec fn parse_request(s: Seq<char>) -> Option<DFSRequestView> {
    match wire_tag_at(s) {
        None => None,
        Some((t, j)) => {
            let body: Option<(DFSRequestView, int)> = if t == "Create"@ {
                match parse_create_req_at(s, j) {
                    None => None,
                    Some((p, e)) => Some((DFSRequestView::Create(p), e)),
                }
            } else if t == "Get"@ {
                match parse_get_req_at(s, j) {
                    None => None,
                    Some((p, e)) => Some((DFSRequestView::Get(p), e)),
                }
            } else if t == "List"@ {
                match parse_list_req_at(s, j) {
                    None => None,
                    Some((p, e)) => Some((DFSRequestView::List(p), e)),
                }
            } else if t == "Delete"@ {
                match parse_del_req_at(s, j) {
                    None => None,
                    Some((p, e)) => Some((DFSRequestView::Delete(p), e)),
                }
            } else {
                None
            };
            match body {
                None => None,
                Some((v, e)) => if e < s.len() && s[e] == '}' && e + 1 == s.len() {
                    Some(v)
                } else {
                    None
                },
            }
        },
    }
}

/// The response a wire text stands for, if it stands for one.
pub open spec fn parse_response(s: Seq<char>) -> Option<DFSResponseView> {
    match wire_tag_at(s) {
        None => None,
        Some((t, j)) => {
            let body: Option<(DFSResponseView, int)> = if t == "Create"@ {
                match parse_create_resp_at(s, j) {
                    None => None,
                    Some((p, e)) => Some((DFSResponseView::Create(p), e)),
                }
            } else if t == "Get"@ {
                match parse_get_resp_at(s, j) {
                    None => None,
                    Some((p, e)) => Some((DFSResponseView::Get(p), e)),
                }
            } else if t == "List"@ {
                match parse_list_resp_at(s, j) {
                    None => None,
                    Some((p, e)) => Some((DFSResponseView::List(p), e)),
                }
            } else if t == "Delete"@ {
                match parse_del_resp_at(s, j) {
                    None => None,
                    Some((p, e)) => Some((DFSResponseView::Delete(p), e)),
                }
            } else {
                None
            };
            match body {
                None => None,
                Some((v, e)) => if e < s.len() && s[e] == '}' && e + 1 == s.len() {
                    Some(v)
                } else {
                    None
                },
            }
        },
    }
}

/// Round trip for requests: every request parses back, variant and fields
/// intact, from its own encoding — and the encoding carries the variant's
/// name as its tag.
#[verifier::rlimit(100)]
#[verifier::spinoff_prover]
pub proof fn lemma_request_round_trip(v: DFSRequestView)
    ensures
        parse_request(enc_request(v)) == Some(v),
        wire_tag(enc_request(v)) == Some(request_tag(v)),
{
    let s = enc_request(v);
    let tag = request_tag(v);
    let pay = enc_request_payload(v);
    assert(starts_with_at(s, 0, s)) by {
        assert(s.subrange(0, s.len() as int) =~= s);
    }
    lemma_starts_with_concat(s, 0, seq!['{'] + "type:"@ + enc_str(tag) + pay, seq!['}']);
    lemma_starts_with_concat(s, 0, seq!['{'] + "type:"@ + enc_str(tag), pay);
    lemma_starts_with_concat(s, 0, seq!['{'] + "type:"@, enc_str(tag));
    lemma_starts_with_concat(s, 0, seq!['{'], "type:"@);
    assert(s[0] == '{') by {
        assert(s.subrange(0, 1)[0] == seq!['{'][0]);
    }
    let j0: int = 1 + "type:"@.len() as int;
    lemma_parse_str_of(s, j0, tag);
    let j: int = j0 + enc_str(tag).len() as int;
    reveal_strlit("Create");
    reveal_strlit("Get");
    reveal_strlit("List");
    reveal_strlit("Delete");
    match v {
        DFSRequestView::Create(p) => {
            lemma_parse_create_req_of(s, j, p);
        },
        DFSRequestView::Get(p) => {
            assert(tag != "Create"@);
            lemma_parse_get_req_of(s, j, p);
        },
        DFSRequestView::List(p) => {
            assert(tag != "Create"@);
            assert(tag != "Get"@);
            lemma_parse_list_req_of(s, j, p);
        },
        DFSRequestView::Delete(p) => {
            assert(tag != "Create"@) by {
                assert("Delete"@[0] == 'D' && "Create"@[0] == 'C');
            }
            assert(tag != "Get"@);
            assert(tag != "List"@);
            lemma_parse_del_req_of(s, j, p);
        },
    }
    let e: int = j + pay.len() as int;
    assert(s[e] == '}') by {
        assert(s.subrange(e, e + 1)[0] == seq!['}'][0]);
    }
}

/// Round trip for responses: every response parses back, variant and fields
/// intact, from its own encoding — and the encoding carries the variant's
/// name as its tag.
#[verifier::rlimit(100)]
#[verifier::spinoff_prover]
pub proof fn lemma_response_round_trip(v: DFSResponseView)
    ensures
        parse_response(enc_response(v)) == Some(v),
        wire_tag(enc_response(v)) == Some(response_tag(v)),
{
    let s = enc_response(v);
    let tag = response_tag(v);
    let pay = enc_response_payload(v);
    assert(starts_with_at(s, 0, s)) by {
        assert(s.subrange(0, s.len() as int) =~= s);
    }
    lemma_starts_with_concat(s, 0, seq!['{'] + "type:"@ + enc_str(tag) + pay, seq!['}']);
    lemma_starts_with_concat(s, 0, seq!['{'] + "type:"@ + enc_str(tag), pay);
    lemma_starts_with_concat(s, 0, seq!['{'] + "type:"@, enc_str(tag));
    lemma_starts_with_concat(s, 0, seq!['{'], "type:"@);
    assert(s[0] == '{') by {
        assert(s.subrange(0, 1)[0] == seq!['{'][0]);
    }
    let j0: int = 1 + "type:"@.len() as int;
    lemma_parse_str_of(s, j0, tag);
    let j: int = j0 + enc_str(tag).len() as int;
    reveal_strlit("Create");
    reveal_strlit("Get");
    reveal_strlit("List");
    reveal_strlit("Delete");
    match v {
        DFSResponseView::Create(p) => {
            lemma_parse_create_resp_of(s, j, p);
        },
        DFSResponseView::Get(p) => {
            assert(tag != "Create"@);
            lemma_parse_get_resp_of(s, j, p);
        },
        DFSResponseView::List(p) => {
            assert(tag != "Create"@);
            assert(tag != "Get"@);
            lemma_parse_list_resp_of(s, j, p);
        },
        DFSResponseView::Delete(p) => {
            assert(tag != "Create"@) by {
                assert("Delete"@[0] == 'D' && "Create"@[0] == 'C');
            }
            assert(tag != "Get"@);
            assert(tag != "List"@);
            lemma_parse_del_resp_of(s, j, p);
        },
    }
    let e: int = j + pay.len() as int;
    assert(s[e] == '}') by {
        assert(s.subrange(e, e + 1)[0] == seq!['}'][0]);
    }
}

/// The request parser accepts only canonical texts: a text it reads as a
/// request is that request's own encoding, character for character.
#[verifier::rlimit(100)]
#[verifier::spinoff_prover]
pub proof fn lemma_parse_request_sound(s: Seq<char>)
    requires
        parse_request(s) is Some,
    ensures
        s == enc_request(parse_request(s)->Some_0),
{
    let (t, j) = wire_tag_at(s)->Some_0;
    let j0: int = 1 + "type:"@.len() as int;
    lemma_parse_str_sound(s, j0);
    lemma_starts_with_char(s, 0, '{');
    assert(starts_with_at(s, 1, "type:"@));
    lemma_starts_with_join(s, 0, seq!['{'], "type:"@);
    lemma_starts_with_join(s, 0, seq!['{'] + "type:"@, enc_str(t));
    let head = seq!['{'] + "type:"@ + enc_str(t);
    reveal_strlit("Create");
    reveal_strlit("Get");
    reveal_strlit("List");
    reveal_strlit("Delete");
    if t == "Create"@ {
        lemma_parse_create_req_sound(s, j);
        let (p, e) = parse_create_req_at(s, j)->Some_0;
        lemma_starts_with_join(s, 0, head, enc_create_req(p));
        lemma_starts_with_char(s, e, '}');
        lemma_starts_with_join(s, 0, head + enc_create_req(p), seq!['}']);
        assert(s.subrange(0, s.len() as int) =~= s);
    } else if t == "Get"@ {
        lemma_parse_get_req_sound(s, j);
        let (p, e) = parse_get_req_at(s, j)->Some_0;
        lemma_starts_with_join(s, 0, head, enc_get_req(p));
        lemma_starts_with_char(s, e, '}');
        lemma_starts_with_join(s, 0, head + enc_get_req(p), seq!['}']);
        assert(s.subrange(0, s.len() as int) =~= s);
    } else if t == "List"@ {
        lemma_parse_list_req_sound(s, j);
        let (p, e) = parse_list_req_at(s, j)->Some_0;
        lemma_starts_with_join(s, 0, head, enc_list_req(p));
        lemma_starts_with_char(s, e, '}');
        lemma_starts_with_join(s, 0, head + enc_list_req(p), seq!['}']);
        assert(s.subrange(0, s.len() as int) =~= s);
    } else if t == "Delete"@ {
        lemma_parse_del_req_sound(s, j);
        let (p, e) = parse_del_req_at(s, j)->Some_0;
        lemma_starts_with_join(s, 0, head, enc_del_req(p));
        lemma_starts_with_char(s, e, '}');
        lemma_starts_with_join(s, 0, head + enc_del_req(p), seq!['}']);
        assert(s.subrange(0, s.len() as int) =~= s);
    } else {
        assert(false);
    }
}

/// The response parser accepts only canonical texts: a text it reads as a
/// response is that response's own encoding, character for character.
#[verifier::rlimit(100)]
#[verifier::spinoff_prover]
pub proof fn lemma_parse_response_sound(s: Seq<char>)
    requires
        parse_response(s) is Some,
    ensures
        s == enc_response(parse_response(s)->Some_0),
{
    let (t, j) = wire_tag_at(s)->Some_0;
    let j0: int = 1 + "type:"@.len() as int;
    lemma_parse_str_sound(s, j0);
    lemma_starts_with_char(s, 0, '{');
    assert(starts_with_at(s, 1, "type:"@));
    lemma_starts_with_join(s, 0, seq!['{'], "type:"@);
    lemma_starts_with_join(s, 0, seq!['{'] + "type:"@, enc_str(t));
    let head = seq!['{'] + "type:"@ + enc_str(t);
    reveal_strlit("Create");
    reveal_strlit("Get");
    reveal_strlit("List");
    reveal_strlit("Delete");
    if t == "Create"@ {
        lemma_parse_create_resp_sound(s, j);
        let (p, e) = parse_create_resp_at(s, j)->Some_0;
        lemma_starts_with_join(s, 0, head, enc_create_resp(p));
        lemma_starts_with_char(s, e, '}');
        lemma_starts_with_join(s, 0, head + enc_create_resp(p), seq!['}']);
        assert(s.subrange(0, s.len() as int) =~= s);
    } else if t == "Get"@ {
        lemma_parse_get_resp_sound(s, j);
        let (p, e) = parse_get_resp_at(s, j)->Some_0;
        lemma_starts_with_join(s, 0, head, enc_get_resp(p));
        lemma_starts_with_char(s, e, '}');
        lemma_starts_with_join(s, 0, head + enc_get_resp(p), seq!['}']);
        assert(s.subrange(0, s.len() as int) =~= s);
    } else if t == "List"@ {
        lemma_parse_list_resp_sound(s, j);
        let (p, e) = parse_list_resp_at(s, j)->Some_0;
        lemma_starts_with_join(s, 0, head, enc_list_resp(p));
        lemma_starts_with_char(s, e, '}');
        lemma_starts_with_join(s, 0, head + enc_list_resp(p), seq!['}']);
        assert(s.subrange(0, s.len() as int) =~= s);
    } else if t == "Delete"@ {
        lemma_parse_del_resp_sound(s, j);
        let (p, e) = parse_del_resp_at(s, j)->Some_0;
        lemma_starts_with_join(s, 0, head, enc_del_resp(p));
        lemma_starts_with_char(s, e, '}');
        lemma_starts_with_join(s, 0, head + enc_del_resp(p), seq!['}']);
        assert(s.subrange(0, s.len() as int) =~= s);
    } else {
        assert(false);
    }
}

/// No two different requests share a wire text: the encoding determines the
/// message.
pub proof fn lemma_enc_request_injective(v1: DFSRequestView, v2: DFSRequestView)
    requires
        enc_request(v1) == enc_request(v2),
    ensures
        v1 == v2,
{
    lemma_request_round_trip(v1);
    lemma_request_round_trip(v2);
}

/// No two different responses share a wire text: the encoding determines the
/// message.
pub proof fn lemma_enc_response_injective(v1: DFSResponseView, v2: DFSResponseView)
    requires
        enc_response(v1) == enc_response(v2),
    ensures
        v1 == v2,
{
    lemma_response_round_trip(v1);
    lemma_response_round_trip(v2);
}

} // verus!
