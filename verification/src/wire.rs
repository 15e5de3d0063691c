//! Textual primitives of the persisted document: the canonical spelling of
//! numbers, percentages, dates and quoted text, with an emitter and a strict
//! parser for each.
//!
//! Every parser here carries a two-sided contract: whatever it accepts is
//! spelled canonically (soundness), and wherever a canonical spelling stands
//! in the input it accepts exactly that spelling and returns exactly the
//! value spelled there (completeness). The document codec in [`crate::codec`]
//! builds its round-trip guarantee out of these two sides.

use vstd::prelude::*;

use crate::date::Date;

verus! {

/// The decimal digit character for `d` (meaningful for `d < 10`).
pub open spec fn digit_char(d: nat) -> char {
    if d == 0 {
        '0'
    } else if d == 1 {
        '1'
    } else if d == 2 {
        '2'
    } else if d == 3 {
        '3'
    } else if d == 4 {
        '4'
    } else if d == 5 {
        '5'
    } else if d == 6 {
        '6'
    } else if d == 7 {
        '7'
    } else if d == 8 {
        '8'
    } else {
        '9'
    }
}

/// Whether `c` is a decimal digit character.
pub open spec fn is_digit(c: char) -> bool {
    c == '0' || c == '1' || c == '2' || c == '3' || c == '4' || c == '5' || c == '6' || c == '7'
        || c == '8' || c == '9'
}

/// The value of a decimal digit character (meaningful for digits).
pub open spec fn digit_val(c: char) -> nat {
    if c == '0' {
        0
    } else if c == '1' {
        1
    } else if c == '2' {
        2
    } else if c == '3' {
        3
    } else if c == '4' {
        4
    } else if c == '5' {
        5
    } else if c == '6' {
        6
    } else if c == '7' {
        7
    } else if c == '8' {
        8
    } else {
        9
    }
}

/// The canonical decimal spelling of `n`: no sign, no leading zero except
/// for `0` itself.
pub open spec fn dec_nat(n: nat) -> Seq<char>
    decreases n,
{
    if n < 10 {
        seq![digit_char(n)]
    } else {
        dec_nat(n / 10).push(digit_char(n % 10))
    }
}

/// The number spelled by a digit string, most significant digit first.
pub open spec fn seq_val(ds: Seq<char>) -> nat
    decreases ds.len(),
{
    if ds.len() == 0 {
        0
    } else {
        seq_val(ds.drop_last()) * 10 + digit_val(ds.last())
    }
}

/// Every character of the string is a decimal digit.
pub open spec fn all_digits(ds: Seq<char>) -> bool {
    forall|i: int| 0 <= i < ds.len() ==> is_digit(#[trigger] ds[i])
}

/// Shape of the canonical spelling: non-empty, all digits, a leading zero
/// only for zero itself, and it spells the number it came from.
pub proof fn lemma_dec_nat_shape(n: nat)
    ensures
        dec_nat(n).len() >= 1,
        all_digits(dec_nat(n)),
        (dec_nat(n)[0] == '0') <==> n == 0,
        seq_val(dec_nat(n)) == n,
    decreases n,
{
    if n < 10 {
        assert(dec_nat(n) =~= seq![digit_char(n)]);
        assert(dec_nat(n).drop_last() =~= Seq::<char>::empty());
        assert(seq_val(Seq::<char>::empty()) == 0);
        assert(dec_nat(n).last() == digit_char(n));
        assert(seq_val(dec_nat(n)) == digit_val(digit_char(n)));
        assert(digit_val(digit_char(n)) == n);
    } else {
        lemma_dec_nat_shape(n / 10);
        let prefix = dec_nat(n / 10);
        let whole = dec_nat(n);
        assert(whole =~= prefix.push(digit_char(n % 10)));
        assert(whole.drop_last() =~= prefix);
        assert(whole[0] == prefix[0]);
        assert(seq_val(whole) == seq_val(prefix) * 10 + digit_val(whole.last()));
        assert(digit_val(digit_char(n % 10)) == n % 10);
    }
}

/// A digit string with no spurious leading zero is the canonical spelling
/// of the number it spells.
pub proof fn lemma_val_to_dec(ds: Seq<char>)
    requires
        ds.len() >= 1,
        all_digits(ds),
        ds[0] != '0' || ds.len() == 1,
    ensures
        dec_nat(seq_val(ds)) == ds,
    decreases ds.len(),
{
    if ds.len() == 1 {
        assert(ds.drop_last() =~= Seq::<char>::empty());
        assert(seq_val(Seq::<char>::empty()) == 0);
        assert(ds.last() == ds[0]);
        assert(seq_val(ds) == digit_val(ds[0]));
        assert(digit_char(digit_val(ds[0])) == ds[0]);
        assert(dec_nat(seq_val(ds)) =~= ds);
    } else {
        let head = ds.drop_last();
        assert(head[0] == ds[0]);
        assert(all_digits(head)) by {
            assert(forall|i: int| 0 <= i < head.len() ==> head[i] == ds[i]);
        }
        lemma_val_to_dec(head);
        lemma_dec_nat_shape(seq_val(head));
        // head spells a nonzero number, so the whole spells at least ten
        assert(seq_val(head) != 0) by {
            if seq_val(head) == 0 {
                assert(dec_nat(0) =~= seq![digit_char(0)]);
                assert(head[0] == '0');
            }
        }
        let v = seq_val(ds);
        assert(v == seq_val(head) * 10 + digit_val(ds.last()));
        assert(digit_val(ds.last()) < 10);
        assert(v >= 10);
        assert(v / 10 == seq_val(head));
        assert(v % 10 == digit_val(ds.last()));
        assert(digit_char(digit_val(ds.last())) == ds.last());
        assert(dec_nat(v) =~= ds);
    }
}

/// Every prefix of a canonical spelling spells at most the number itself.
pub proof fn lemma_dec_prefix_val(n: nat, k: int)
    requires
        0 <= k <= dec_nat(n).len(),
    ensures
        seq_val(dec_nat(n).take(k)) <= n,
    decreases n,
{
    lemma_dec_nat_shape(n);
    if k == dec_nat(n).len() {
        assert(dec_nat(n).take(k) =~= dec_nat(n));
    } else if n < 10 {
        assert(k == 0);
        assert(dec_nat(n).take(0) =~= Seq::<char>::empty());
    } else {
        assert(dec_nat(n) =~= dec_nat(n / 10).push(digit_char(n % 10)));
        assert(k <= dec_nat(n / 10).len());
        assert(dec_nat(n).take(k) =~= dec_nat(n / 10).take(k));
        lemma_dec_prefix_val(n / 10, k);
    }
}

/// The text `t` stands verbatim in `s` at position `i`.
pub open spec fn match_at(s: Seq<char>, i: int, t: Seq<char>) -> bool {
    &&& 0 <= i
    &&& i + t.len() <= s.len()
    &&& s.subrange(i, i + t.len()) == t
}

/// Position `p` of `s` does not continue a decimal number: it is the end of
/// the text or holds a non-digit.
pub open spec fn nondigit_after(s: Seq<char>, p: int) -> bool {
    p == s.len() || !is_digit(s[p])
}

/// A match of a concatenation is a match of both parts in turn.
pub proof fn lemma_match_split(s: Seq<char>, i: int, a: Seq<char>, b: Seq<char>)
    requires
        match_at(s, i, a + b),
    ensures
        match_at(s, i, a),
        match_at(s, i + a.len(), b),
{
    let whole = s.subrange(i, i + (a + b).len());
    assert(forall|t: int| 0 <= t < (a + b).len() ==> whole[t] == s[i + t]);
    assert(s.subrange(i, i + a.len()) =~= a) by {
        assert(forall|t: int| 0 <= t < a.len() ==> s[i + t] == (a + b)[t]);
    }
    assert(s.subrange(i + a.len(), i + a.len() + b.len()) =~= b) by {
        assert(forall|t: int|
            0 <= t < b.len() ==> s[i + a.len() + t] == (a + b)[a.len() + t] && (a + b)[a.len() + t]
                == b[t]);
    }
}

/// Matches of both parts in turn make a match of the concatenation.
pub proof fn lemma_match_join(s: Seq<char>, i: int, a: Seq<char>, b: Seq<char>)
    requires
        match_at(s, i, a),
        match_at(s, i + a.len(), b),
    ensures
        match_at(s, i, a + b),
{
    assert(s.subrange(i, i + (a + b).len()) =~= a + b) by {
        assert(forall|t: int| 0 <= t < a.len() ==> s[i + t] == a[t]);
        assert(forall|t: int| 0 <= t < b.len() ==> s[i + a.len() + t] == b[t]);
    }
}

/// The digit value of `c`, where there is one.
pub fn digit_value(c: char) -> (r: Option<u32>)
    ensures
        r is Some <==> is_digit(c),
        r is Some ==> r->0 == digit_val(c) && r->0 < 10,
{
    match c {
        '0' => Some(0),
        '1' => Some(1),
        '2' => Some(2),
        '3' => Some(3),
        '4' => Some(4),
        '5' => Some(5),
        '6' => Some(6),
        '7' => Some(7),
        '8' => Some(8),
        '9' => Some(9),
        _ => None,
    }
}

/// The digit character for `d < 10`.
pub fn char_of_digit(d: u32) -> (r: char)
    requires
        d < 10,
    ensures
        r == digit_char(d as nat),
{
    if d == 0 {
        '0'
    } else if d == 1 {
        '1'
    } else if d == 2 {
        '2'
    } else if d == 3 {
        '3'
    } else if d == 4 {
        '4'
    } else if d == 5 {
        '5'
    } else if d == 6 {
        '6'
    } else if d == 7 {
        '7'
    } else if d == 8 {
        '8'
    } else {
        '9'
    }
}

/// Appends the text of `lit` to `out`.
pub fn emit_lit(out: &mut Vec<char>, lit: &str)
    ensures
        final(out)@ == old(out)@ + lit@,
{
    let n = lit.unicode_len();
    let mut j: usize = 0;
    while j < n
        invariant
            n == lit@.len(),
            j <= n,
            out@ == old(out)@ + lit@.take(j as int),
        decreases n - j,
    {
        let c = lit.get_char(j);
        out.push(c);
        proof {
            assert(out@ =~= old(out)@ + lit@.take(j as int + 1));
        }
        j = j + 1;
    }
    proof {
        assert(out@ =~= old(out)@ + lit@);
    }
}

/// Appends the canonical decimal spelling of `n` to `out`.
pub fn emit_u32(out: &mut Vec<char>, n: u32)
    ensures
        final(out)@ == old(out)@ + dec_nat(n as nat),
    decreases n,
{
    if n >= 10 {
        emit_u32(out, n / 10);
    }
    out.push(char_of_digit(n % 10));
    proof {
        if n >= 10 {
            assert(out@ =~= old(out)@ + dec_nat(n as nat));
        } else {
            assert(dec_nat(n as nat) =~= seq![digit_char(n as nat)]);
            assert(out@ =~= old(out)@ + dec_nat(n as nat));
        }
    }
}

/// Accepts `lit` verbatim at `from`, and nothing else.
pub fn expect_lit(s: &Vec<char>, from: usize, lit: &str) -> (r: Option<usize>)
    requires
        from <= s@.len(),
    ensures
        r is Some ==> match_at(s@, from as int, lit@) && r->0 == from + lit@.len(),
        r is None ==> !match_at(s@, from as int, lit@),
{
    let n = lit.unicode_len();
    if n > s.len() - from {
        return None;
    }
    let mut j: usize = 0;
    while j < n
        invariant
            n == lit@.len(),
            from + n <= s@.len(),
            j <= n,
            forall|t: int| 0 <= t < j ==> s@[from + t] == lit@[t],
        decreases n - j,
    {
        let c = lit.get_char(j);
        assert(from + j < s.len());
        if s[from + j] != c {
            proof {
                assert(!match_at(s@, from as int, lit@)) by {
                    if match_at(s@, from as int, lit@) {
                        assert(s@.subrange(from as int, from + lit@.len())[j as int] == s@[from
                            + j]);
                    }
                }
            }
            return None;
        }
        j = j + 1;
    }
    proof {
        assert(s@.subrange(from as int, from + lit@.len()) =~= lit@);
    }
    Some(from + n)
}

/// Reads the canonical decimal spelling of a `u32` standing at `from`.
///
/// Accepted digit runs are always canonical (no spurious leading zero), so
/// whatever is consumed re-prints to itself; and any canonical spelling that
/// stands at `from`, followed by a non-digit, is read back as exactly the
/// number it spells.
pub fn parse_u32(s: &Vec<char>, from: usize) -> (r: Option<(u32, usize)>)
    requires
        from <= s@.len(),
    ensures
        r is Some ==> from < (r->0).1 <= s@.len() && s@.subrange(from as int, (r->0).1 as int)
            == dec_nat((r->0).0 as nat),
        forall|n: u32|
            (#[trigger] match_at(s@, from as int, dec_nat(n as nat)) && nondigit_after(
                s@,
                from + dec_nat(n as nat).len(),
            )) ==> r == Some((n, (from + dec_nat(n as nat).len()) as usize)),
{
    if from == s.len() {
        proof {
            assert forall|n: u32|
                !(match_at(s@, from as int, dec_nat(n as nat)) && nondigit_after(
                    s@,
                    from + dec_nat(n as nat).len(),
                )) by {
                lemma_dec_nat_shape(n as nat);
            }
        }
        return None;
    }
    let c0 = s[from];
    let d0 = match digit_value(c0) {
        Some(d) => d,
        None => {
            proof {
                assert forall|n: u32|
                    !(match_at(s@, from as int, dec_nat(n as nat)) && nondigit_after(
                        s@,
                        from + dec_nat(n as nat).len(),
                    )) by {
                    lemma_dec_nat_shape(n as nat);
                    if match_at(s@, from as int, dec_nat(n as nat)) {
                        assert(s@.subrange(from as int, from + dec_nat(n as nat).len())[0] == s@[
                            from as int]);
                    }
                }
            }
            return None;
        },
    };
    if c0 == '0' {
        // a leading zero is canonical only for zero itself
        proof {
            assert(s@.subrange(from as int, from as int + 1) =~= dec_nat(0));
            assert forall|n: u32|
                (match_at(s@, from as int, dec_nat(n as nat)) && nondigit_after(
                    s@,
                    from + dec_nat(n as nat).len(),
                )) implies Some((0u32, (from + 1) as usize)) == Some(
                (n, (from + dec_nat(n as nat).len()) as usize),
            ) by {
                lemma_dec_nat_shape(n as nat);
                assert(s@.subrange(from as int, from + dec_nat(n as nat).len())[0] == s@[
                    from as int]);
                assert(dec_nat(n as nat)[0] == '0');
            }
        }
        return Some((0, from + 1));
    }
    let mut j: usize = from + 1;
    let mut val: u32 = d0;
    proof {
        assert(s@.subrange(from as int, from as int + 1) =~= seq![s@[from as int]]);
        assert(seq_val(seq![s@[from as int]]) == digit_val(s@[from as int])) by {
            assert(seq![s@[from as int]].drop_last() =~= Seq::<char>::empty());
            assert(seq_val(Seq::<char>::empty()) == 0);
            assert(seq![s@[from as int]].last() == s@[from as int]);
        }
    }
    while j < s.len()
        invariant_except_break
            from < j <= s@.len(),
            all_digits(s@.subrange(from as int, j as int)),
            s@[from as int] != '0',
            is_digit(s@[from as int]),
            val == seq_val(s@.subrange(from as int, j as int)),
            forall|n: u32|
                (#[trigger] match_at(s@, from as int, dec_nat(n as nat)) && nondigit_after(
                    s@,
                    from + dec_nat(n as nat).len(),
                )) ==> j <= from + dec_nat(n as nat).len(),
        ensures
            from < j <= s@.len(),
            all_digits(s@.subrange(from as int, j as int)),
            s@[from as int] != '0',
            val == seq_val(s@.subrange(from as int, j as int)),
            nondigit_after(s@, j as int),
            forall|n: u32|
                (#[trigger] match_at(s@, from as int, dec_nat(n as nat)) && nondigit_after(
                    s@,
                    from + dec_nat(n as nat).len(),
                )) ==> j <= from + dec_nat(n as nat).len(),
        decreases s@.len() - j,
    {
        let c = s[j];
        let d = match digit_value(c) {
            Some(d) => d,
            None => {
                break ;
            },
        };
        // on a canonical number the scan stays inside its digits, whose
        // value never exceeds the number; so overflow here means no
        // canonical u32 stands at `from`
        if val > (u32::MAX - d) / 10 {
            proof {
                assert forall|n: u32|
                    !(match_at(s@, from as int, dec_nat(n as nat)) && nondigit_after(
                        s@,
                        from + dec_nat(n as nat).len(),
                    )) by {
                    if match_at(s@, from as int, dec_nat(n as nat)) && nondigit_after(
                        s@,
                        from + dec_nat(n as nat).len(),
                    ) {
                        lemma_dec_nat_shape(n as nat);
                        let dlen = dec_nat(n as nat).len() as int;
                        // the scan is still strictly inside the spelled number
                        assert(j < from + dlen) by {
                            assert(forall|t: int|
                                0 <= t < dlen ==> #[trigger] s@.subrange(from as int, from + dlen)[t] == s@[from + t]);
                            if j >= from + dlen {
                                assert(is_digit(s@[from + dlen])) by {
                                    assert(s@.subrange(from as int, j as int)[dlen] == s@[from
                                        + dlen]);
                                }
                            }
                        }
                        // so the digits read so far, with this one, prefix it
                        assert(s@.subrange(from as int, j + 1) =~= dec_nat(n as nat).take(
                            j + 1 - from,
                        )) by {
                            assert(forall|t: int|
                                0 <= t < dlen ==> #[trigger] s@.subrange(from as int, from + dlen)[t] == s@[from + t]);
                        }
                        lemma_dec_prefix_val(n as nat, j + 1 - from);
                        assert(seq_val(s@.subrange(from as int, j + 1)) <= n as nat);
                        assert(s@.subrange(from as int, j + 1).drop_last() =~= s@.subrange(
                            from as int,
                            j as int,
                        ));
                        assert(seq_val(s@.subrange(from as int, j + 1)) == val * 10 + d);
                    }
                }
            }
            return None;
        }
        val = val * 10 + d;
        j = j + 1;
        proof {
            assert(s@.subrange(from as int, j as int).drop_last() =~= s@.subrange(
                from as int,
                j - 1,
            ));
            assert(all_digits(s@.subrange(from as int, j as int))) by {
                assert(forall|t: int|
                    0 <= t < j - from ==> s@.subrange(from as int, j as int)[t] == s@[from + t]);
            }
            assert forall|n: u32|
                (#[trigger] match_at(s@, from as int, dec_nat(n as nat)) && nondigit_after(
                    s@,
                    from + dec_nat(n as nat).len(),
                )) implies j <= from + dec_nat(n as nat).len() by {
                lemma_dec_nat_shape(n as nat);
                let dlen = dec_nat(n as nat).len() as int;
                if j > from + dlen {
                    assert(is_digit(s@[from + dlen])) by {
                        assert(s@.subrange(from as int, j as int)[dlen] == s@[from + dlen]);
                    }
                }
            }
        }
    }
    proof {
        lemma_val_to_dec(s@.subrange(from as int, j as int));
        assert forall|n: u32|
            (match_at(s@, from as int, dec_nat(n as nat)) && nondigit_after(
                s@,
                from + dec_nat(n as nat).len(),
            )) implies Some((val, j)) == Some((n, (from + dec_nat(n as nat).len()) as usize)) by {
            lemma_dec_nat_shape(n as nat);
            let dlen = dec_nat(n as nat).len() as int;
            assert(j <= from + dlen);
            if j < from + dlen {
                assert(is_digit(dec_nat(n as nat)[j - from]));
                assert(s@.subrange(from as int, from + dlen)[j - from] == s@[j as int]);
            }
            assert(j == from + dlen);
            assert(s@.subrange(from as int, j as int) == dec_nat(n as nat));
            assert(val == n) by {
                assert(seq_val(dec_nat(n as nat)) == n as nat);
            }
        }
    }
    Some((val, j))
}

/// Spelling of the fractional part of a percentage of `f` hundredths
/// (`f < 100`): the decimal point and one or two digits, with no trailing
/// zero in the second place.
pub open spec fn pct_tail(f: u32) -> Seq<char> {
    if f % 10 == 0 {
        seq!['.', digit_char((f / 10) as nat)]
    } else {
        seq!['.', digit_char((f / 10) as nat), digit_char((f % 10) as nat)]
    }
}

/// Canonical spelling of a percentage of `h` hundredths: whole percent,
/// point, and the shortest exact fraction (`0` spells as `0.0`, `2` as
/// `0.02`, `10050` as `100.5`).
pub open spec fn canon_pct(h: u32) -> Seq<char> {
    dec_nat((h / 100) as nat) + pct_tail(h % 100)
}

/// What a canonical percentage spelling at `from`, followed by a non-digit,
/// pins down about the text.
proof fn lemma_pct_shape(s: Seq<char>, from: int, h: u32)
    requires
        match_at(s, from, canon_pct(h)),
        nondigit_after(s, from + canon_pct(h).len()),
    ensures
        match_at(s, from, dec_nat((h / 100) as nat)),
        nondigit_after(s, from + dec_nat((h / 100) as nat).len()),
        s[from + dec_nat((h / 100) as nat).len()] == '.',
        from + dec_nat((h / 100) as nat).len() + 2 <= s.len(),
        s[from + dec_nat((h / 100) as nat).len() + 1] == digit_char((h % 100 / 10) as nat),
        h % 100 % 10 == 0 ==> nondigit_after(s, from + dec_nat((h / 100) as nat).len() + 2)
            && from + canon_pct(h).len() == from + dec_nat((h / 100) as nat).len() + 2,
        h % 100 % 10 != 0 ==> from + dec_nat((h / 100) as nat).len() + 3 <= s.len() && s[from
            + dec_nat((h / 100) as nat).len() + 2] == digit_char((h % 100 % 10) as nat)
            && nondigit_after(s, from + dec_nat((h / 100) as nat).len() + 3) && from + canon_pct(
            h,
        ).len() == from + dec_nat((h / 100) as nat).len() + 3,
{
    lemma_match_split(s, from, dec_nat((h / 100) as nat), pct_tail(h % 100));
    let tpos = from + dec_nat((h / 100) as nat).len();
    let tail = pct_tail(h % 100);
    assert(forall|t: int|
        0 <= t < tail.len() ==> #[trigger] s.subrange(tpos, tpos + tail.len())[t] == s[tpos + t]);
    assert(s[tpos] == tail[0]);
    assert(s[tpos + 1] == tail[1]);
    if h % 100 % 10 != 0 {
        assert(s[tpos + 2] == tail[2]);
    }
}

/// Appends the canonical spelling of `p` to `out`.
pub fn emit_pct(out: &mut Vec<char>, p: crate::percent::Percent)
    ensures
        final(out)@ == old(out)@ + canon_pct(p.hundredths),
{
    let whole = p.hundredths / 100;
    let f = p.hundredths % 100;
    emit_u32(out, whole);
    out.push('.');
    out.push(char_of_digit(f / 10));
    if f % 10 != 0 {
        out.push(char_of_digit(f % 10));
    }
    proof {
        assert(out@ =~= old(out)@ + canon_pct(p.hundredths));
    }
}

/// Reads the canonical spelling of a percentage standing at `from`.
pub fn parse_pct(s: &Vec<char>, from: usize) -> (r: Option<(crate::percent::Percent, usize)>)
    requires
        from <= s@.len(),
    ensures
        r is Some ==> from < (r->0).1 <= s@.len() && s@.subrange(from as int, (r->0).1 as int)
            == canon_pct((r->0).0.hundredths),
        forall|h: u32|
            (#[trigger] match_at(s@, from as int, canon_pct(h)) && nondigit_after(
                s@,
                from + canon_pct(h).len(),
            )) ==> r == Some(
                (crate::percent::Percent { hundredths: h }, (from + canon_pct(h).len()) as usize),
            ),
{
    let (whole, j1) = match parse_u32(s, from) {
        Some(p) => p,
        None => {
            proof {
                assert forall|h: u32|
                    !(match_at(s@, from as int, canon_pct(h)) && nondigit_after(
                        s@,
                        from + canon_pct(h).len(),
                    )) by {
                    if match_at(s@, from as int, canon_pct(h)) && nondigit_after(
                        s@,
                        from + canon_pct(h).len(),
                    ) {
                        lemma_pct_shape(s@, from as int, h);
                    }
                }
            }
            return None;
        },
    };
    if j1 == s.len() || j1 + 1 == s.len() {
        proof {
            assert forall|h: u32|
                !(match_at(s@, from as int, canon_pct(h)) && nondigit_after(
                    s@,
                    from + canon_pct(h).len(),
                )) by {
                if match_at(s@, from as int, canon_pct(h)) && nondigit_after(
                    s@,
                    from + canon_pct(h).len(),
                ) {
                    lemma_pct_shape(s@, from as int, h);
                }
            }
        }
        return None;
    }
    let c_dot = s[j1];
    if c_dot != '.' {
        proof {
            assert forall|h: u32|
                !(match_at(s@, from as int, canon_pct(h)) && nondigit_after(
                    s@,
                    from + canon_pct(h).len(),
                )) by {
                if match_at(s@, from as int, canon_pct(h)) && nondigit_after(
                    s@,
                    from + canon_pct(h).len(),
                ) {
                    lemma_pct_shape(s@, from as int, h);
                }
            }
        }
        return None;
    }
    let d1 = match digit_value(s[j1 + 1]) {
        Some(d) => d,
        None => {
            proof {
                assert forall|h: u32|
                    !(match_at(s@, from as int, canon_pct(h)) && nondigit_after(
                        s@,
                        from + canon_pct(h).len(),
                    )) by {
                    if match_at(s@, from as int, canon_pct(h)) && nondigit_after(
                        s@,
                        from + canon_pct(h).len(),
                    ) {
                        lemma_pct_shape(s@, from as int, h);
                    }
                }
            }
            return None;
        },
    };
    // the fraction has a second digit exactly when one stands there; a
    // trailing zero in the second place is not canonical
    let mut two = false;
    let mut d2: u32 = 0;
    if j1 + 2 < s.len() {
        match digit_value(s[j1 + 2]) {
            Some(d) => {
                if d == 0 {
                    proof {
                        assert forall|h: u32|
                            !(match_at(s@, from as int, canon_pct(h)) && nondigit_after(
                                s@,
                                from + canon_pct(h).len(),
                            )) by {
                            if match_at(s@, from as int, canon_pct(h)) && nondigit_after(
                                s@,
                                from + canon_pct(h).len(),
                            ) {
                                lemma_pct_shape(s@, from as int, h);
                            }
                        }
                    }
                    return None;
                }
                two = true;
                d2 = d;
            },
            None => {},
        }
    }
    let frac: u32 = if two {
        d1 * 10 + d2
    } else {
        d1 * 10
    };
    if whole > (u32::MAX - frac) / 100 {
        proof {
            assert forall|h: u32|
                !(match_at(s@, from as int, canon_pct(h)) && nondigit_after(
                    s@,
                    from + canon_pct(h).len(),
                )) by {
                if match_at(s@, from as int, canon_pct(h)) && nondigit_after(
                    s@,
                    from + canon_pct(h).len(),
                ) {
                    lemma_pct_shape(s@, from as int, h);
                    assert(whole == h / 100 && frac == h % 100);
                    assert(h == (h / 100) * 100 + h % 100);
                }
            }
        }
        return None;
    }
    let h = whole * 100 + frac;
    let j = if two {
        j1 + 3
    } else {
        j1 + 2
    };
    proof {
        assert(h / 100 == whole && h % 100 == frac);
        assert(frac / 10 == d1 && frac % 10 == (if two {
            d2
        } else {
            0
        }));
        assert(s@.subrange(j1 as int, j as int) =~= pct_tail(h % 100)) by {
            assert(digit_char(d1 as nat) == s@[j1 + 1]);
            if two {
                assert(digit_char(d2 as nat) == s@[j1 + 2]);
            }
        }
        lemma_match_join(s@, from as int, dec_nat((h / 100) as nat), pct_tail(h % 100));
        assert(s@.subrange(from as int, j as int) == canon_pct(h)) by {
            assert(match_at(s@, from as int, canon_pct(h)));
        }
        assert forall|h2: u32|
            (match_at(s@, from as int, canon_pct(h2)) && nondigit_after(
                s@,
                from + canon_pct(h2).len(),
            )) implies Some((crate::percent::Percent { hundredths: h }, j)) == Some(
            (crate::percent::Percent { hundredths: h2 }, (from + canon_pct(h2).len()) as usize),
        ) by {
            lemma_pct_shape(s@, from as int, h2);
            assert(whole == h2 / 100 && j1 == from + dec_nat((h2 / 100) as nat).len());
            assert(d1 == h2 % 100 / 10);
            if h2 % 100 % 10 == 0 {
                assert(!two);
                assert(frac == h2 % 100);
            } else {
                assert(two && d2 == h2 % 100 % 10);
                assert(frac == h2 % 100);
            }
            assert(h2 == (h2 / 100) * 100 + h2 % 100);
            assert(h == h2);
        }
    }
    Some((crate::percent::Percent { hundredths: h }, j))
}

/// Canonical spelling of a signed basis-point shock: an optional minus sign
/// and the canonical decimal spelling of the magnitude (so no `-0`).
pub open spec fn canon_i32(v: i32) -> Seq<char> {
    if v < 0 {
        seq!['-'] + dec_nat((-(v as int)) as nat)
    } else {
        dec_nat(v as nat)
    }
}

/// What a canonical shock spelling at `from`, followed by a non-digit, pins
/// down about the text.
proof fn lemma_shock_shape(s: Seq<char>, from: int, v: i32)
    requires
        match_at(s, from, canon_i32(v)),
        nondigit_after(s, from + canon_i32(v).len()),
    ensures
        v >= 0 ==> match_at(s, from, dec_nat(v as nat)) && nondigit_after(
            s,
            from + dec_nat(v as nat).len(),
        ) && is_digit(s[from]),
        v < 0 ==> s[from] == '-' && match_at(s, from + 1, dec_nat((-(v as int)) as nat))
            && nondigit_after(s, from + 1 + dec_nat((-(v as int)) as nat).len()),
{
    if v < 0 {
        lemma_match_split(s, from, seq!['-'], dec_nat((-(v as int)) as nat));
        assert(s.subrange(from, from + 1)[0] == s[from]);
    } else {
        lemma_dec_nat_shape(v as nat);
        assert(s.subrange(from, from + dec_nat(v as nat).len())[0] == s[from]);
    }
}

/// Appends the canonical spelling of the shock `v` to `out`.
pub fn emit_shock(out: &mut Vec<char>, v: i32)
    requires
        -500 <= v <= 500,
    ensures
        final(out)@ == old(out)@ + canon_i32(v),
{
    if v < 0 {
        out.push('-');
        let m: i32 = -v;
        emit_u32(out, m as u32);
        proof {
            assert(out@ =~= old(out)@ + canon_i32(v));
        }
    } else {
        emit_u32(out, v as u32);
    }
}

/// Reads the canonical spelling of an in-range shock standing at `from`.
pub fn parse_shock(s: &Vec<char>, from: usize) -> (r: Option<(i32, usize)>)
    requires
        from <= s@.len(),
    ensures
        r is Some ==> from < (r->0).1 <= s@.len() && -500 <= (r->0).0 <= 500 && s@.subrange(
            from as int,
            (r->0).1 as int,
        ) == canon_i32((r->0).0),
        forall|v: i32|
            (-500 <= v <= 500 && #[trigger] match_at(s@, from as int, canon_i32(v))
                && nondigit_after(s@, from + canon_i32(v).len())) ==> r == Some(
                (v, (from + canon_i32(v).len()) as usize),
            ),
{
    if from == s.len() {
        proof {
            assert forall|v: i32|
                !(-500 <= v <= 500 && match_at(s@, from as int, canon_i32(v)) && nondigit_after(
                    s@,
                    from + canon_i32(v).len(),
                )) by {
                if -500 <= v <= 500 && match_at(s@, from as int, canon_i32(v)) && nondigit_after(
                    s@,
                    from + canon_i32(v).len(),
                ) {
                    lemma_shock_shape(s@, from as int, v);
                    if v >= 0 {
                        lemma_dec_nat_shape(v as nat);
                    }
                }
            }
        }
        return None;
    }
    let c = s[from];
    if c == '-' {
        let (n, j) = match parse_u32(s, from + 1) {
            Some(p) => p,
            None => {
                proof {
                    assert forall|v: i32|
                        !(-500 <= v <= 500 && match_at(s@, from as int, canon_i32(v))
                            && nondigit_after(s@, from + canon_i32(v).len())) by {
                        if -500 <= v <= 500 && match_at(s@, from as int, canon_i32(v))
                            && nondigit_after(s@, from + canon_i32(v).len()) {
                            lemma_shock_shape(s@, from as int, v);
                            if v < 0 {
                                let n0 = (-(v as int)) as u32;
                                assert(n0 as nat == (-(v as int)) as nat);
                                assert(match_at(s@, from as int + 1, dec_nat(n0 as nat)));
                            }
                        }
                    }
                }
                return None;
            },
        };
        if n == 0 || n > 500 {
            proof {
                assert forall|v: i32|
                    !(-500 <= v <= 500 && match_at(s@, from as int, canon_i32(v)) && nondigit_after(
                        s@,
                        from + canon_i32(v).len(),
                    )) by {
                    if -500 <= v <= 500 && match_at(s@, from as int, canon_i32(v)) && nondigit_after(
                        s@,
                        from + canon_i32(v).len(),
                    ) {
                        lemma_shock_shape(s@, from as int, v);
                        if v < 0 {
                            let n0 = (-(v as int)) as u32;
                            assert(n0 as nat == (-(v as int)) as nat);
                            assert(match_at(s@, from as int + 1, dec_nat(n0 as nat)));
                            assert(n == n0);
                        }
                    }
                }
            }
            return None;
        }
        let v: i32 = -(n as i32);
        proof {
            assert(s@.subrange(from as int, from as int + 1) =~= seq!['-']);
            lemma_match_join(s@, from as int, seq!['-'], dec_nat(n as nat));
            assert((-(v as int)) as nat == n as nat);
            assert(s@.subrange(from as int, j as int) == canon_i32(v)) by {
                assert(match_at(s@, from as int, canon_i32(v)));
            }
            assert forall|v2: i32|
                (-500 <= v2 <= 500 && match_at(s@, from as int, canon_i32(v2)) && nondigit_after(
                    s@,
                    from + canon_i32(v2).len(),
                )) implies Some((v, j)) == Some((v2, (from + canon_i32(v2).len()) as usize)) by {
                lemma_shock_shape(s@, from as int, v2);
                if v2 >= 0 {
                    assert(is_digit(s@[from as int]));
                } else {
                    let n0 = (-(v2 as int)) as u32;
                    assert(n0 as nat == (-(v2 as int)) as nat);
                    assert(match_at(s@, from as int + 1, dec_nat(n0 as nat)));
                    assert(n == n0 && j == from + 1 + dec_nat(n0 as nat).len());
                }
            }
        }
        Some((v, j))
    } else {
        let (n, j) = match parse_u32(s, from) {
            Some(p) => p,
            None => {
                proof {
                    assert forall|v: i32|
                        !(-500 <= v <= 500 && match_at(s@, from as int, canon_i32(v))
                            && nondigit_after(s@, from + canon_i32(v).len())) by {
                        if -500 <= v <= 500 && match_at(s@, from as int, canon_i32(v))
                            && nondigit_after(s@, from + canon_i32(v).len()) {
                            lemma_shock_shape(s@, from as int, v);
                            if v >= 0 {
                                let n0 = v as u32;
                                assert(n0 as nat == v as nat);
                                assert(match_at(s@, from as int, dec_nat(n0 as nat)));
                            }
                        }
                    }
                }
                return None;
            },
        };
        if n > 500 {
            proof {
                assert forall|v: i32|
                    !(-500 <= v <= 500 && match_at(s@, from as int, canon_i32(v)) && nondigit_after(
                        s@,
                        from + canon_i32(v).len(),
                    )) by {
                    if -500 <= v <= 500 && match_at(s@, from as int, canon_i32(v)) && nondigit_after(
                        s@,
                        from + canon_i32(v).len(),
                    ) {
                        lemma_shock_shape(s@, from as int, v);
                        if v >= 0 {
                            let n0 = v as u32;
                            assert(n0 as nat == v as nat);
                            assert(match_at(s@, from as int, dec_nat(n0 as nat)));
                            assert(n == n0);
                        }
                    }
                }
            }
            return None;
        }
        let v: i32 = n as i32;
        proof {
            assert(s@.subrange(from as int, j as int) == canon_i32(v));
            assert forall|v2: i32|
                (-500 <= v2 <= 500 && match_at(s@, from as int, canon_i32(v2)) && nondigit_after(
                    s@,
                    from + canon_i32(v2).len(),
                )) implies Some((v, j)) == Some((v2, (from + canon_i32(v2).len()) as usize)) by {
                lemma_shock_shape(s@, from as int, v2);
                if v2 >= 0 {
                    let n0 = v2 as u32;
                    assert(n0 as nat == v2 as nat);
                    assert(match_at(s@, from as int, dec_nat(n0 as nat)));
                    assert(n == n0 && j == from + dec_nat(n0 as nat).len());
                }
            }
        }
        Some((v, j))
    }
}

/// Canonical spelling of a date: `"YYYY-MM-DD"`, zero padded, quotes
/// included.
pub open spec fn canon_date(d: Date) -> Seq<char> {
    seq![
        '"',
        digit_char((d.year / 10 / 10 / 10 % 10) as nat),
        digit_char((d.year / 10 / 10 % 10) as nat),
        digit_char((d.year / 10 % 10) as nat),
        digit_char((d.year % 10) as nat),
        '-',
        digit_char((d.month / 10 % 10) as nat),
        digit_char((d.month % 10) as nat),
        '-',
        digit_char((d.day / 10 % 10) as nat),
        digit_char((d.day % 10) as nat),
        '"',
    ]
}

/// Appends the canonical spelling of the date `d` to `out`.
pub fn emit_date(out: &mut Vec<char>, d: Date)
    ensures
        final(out)@ == old(out)@ + canon_date(d),
{
    out.push('"');
    out.push(char_of_digit(d.year / 10 / 10 / 10 % 10));
    out.push(char_of_digit(d.year / 10 / 10 % 10));
    out.push(char_of_digit(d.year / 10 % 10));
    out.push(char_of_digit(d.year % 10));
    out.push('-');
    out.push(char_of_digit(d.month / 10 % 10));
    out.push(char_of_digit(d.month % 10));
    out.push('-');
    out.push(char_of_digit(d.day / 10 % 10));
    out.push(char_of_digit(d.day % 10));
    out.push('"');
    proof {
        assert(out@ =~= old(out)@ + canon_date(d));
    }
}

/// Reads the canonical spelling of a valid date standing at `from`.
pub fn parse_date(s: &Vec<char>, from: usize) -> (r: Option<(Date, usize)>)
    requires
        from <= s@.len(),
    ensures
        r is Some ==> from + 12 == (r->0).1 && (r->0).1 <= s@.len() && (r->0).0.valid()
            && s@.subrange(from as int, (r->0).1 as int) == canon_date((r->0).0),
        forall|d: Date|
            (d.valid() && #[trigger] match_at(s@, from as int, canon_date(d))) ==> r == Some(
                (d, (from + 12) as usize),
            ),
{
    proof {
        // a matching spelling pins each of the twelve characters
        assert forall|d: Date| match_at(s@, from as int, canon_date(d)) implies (from + 12
            <= s@.len() && (forall|t: int|
            0 <= t < 12 ==> s@[from + t] == #[trigger] canon_date(d)[t])) by {
            assert(canon_date(d).len() == 12);
            assert(forall|t: int|
                0 <= t < 12 ==> #[trigger] s@.subrange(from as int, from + 12)[t] == s@[from + t]);
        }
    }
    if s.len() - from < 12 {
        return None;
    }
    if s[from] != '"' || s[from + 5] != '-' || s[from + 8] != '-' || s[from + 11] != '"' {
        return None;
    }
    let d0 = match digit_value(s[from + 1]) {
        Some(d) => d,
        None => {
            return None;
        },
    };
    let d1 = match digit_value(s[from + 2]) {
        Some(d) => d,
        None => {
            return None;
        },
    };
    let d2 = match digit_value(s[from + 3]) {
        Some(d) => d,
        None => {
            return None;
        },
    };
    let d3 = match digit_value(s[from + 4]) {
        Some(d) => d,
        None => {
            return None;
        },
    };
    let m0 = match digit_value(s[from + 6]) {
        Some(d) => d,
        None => {
            return None;
        },
    };
    let m1 = match digit_value(s[from + 7]) {
        Some(d) => d,
        None => {
            return None;
        },
    };
    let a0 = match digit_value(s[from + 9]) {
        Some(d) => d,
        None => {
            return None;
        },
    };
    let a1 = match digit_value(s[from + 10]) {
        Some(d) => d,
        None => {
            return None;
        },
    };
    let year = ((d0 * 10 + d1) * 10 + d2) * 10 + d3;
    let month = m0 * 10 + m1;
    let day = a0 * 10 + a1;
    let date = Date { year, month, day };
    proof {
        // the read digits are the canonical digits of the read value
        assert(year / 10 == (d0 * 10 + d1) * 10 + d2 && year % 10 == d3);
        assert(year / 10 / 10 == d0 * 10 + d1 && year / 10 % 10 == d2);
        assert(year / 10 / 10 / 10 == d0 && year / 10 / 10 % 10 == d1);
        assert(month / 10 % 10 == m0 && month % 10 == m1);
        assert(day / 10 % 10 == a0 && day % 10 == a1);
        // and any valid date spelled here reads back as itself
        assert forall|d: Date| d.valid() && match_at(s@, from as int, canon_date(d)) implies date
            == d by {
            assert(d.year <= 9999 && d.month <= 12 && d.day <= 31);
            assert(d.year / 10 / 10 / 10 <= 9);
            assert(d.year / 10 / 10 == (d.year / 10 / 10 / 10) * 10 + d.year / 10 / 10 % 10);
            assert(d.year / 10 == (d.year / 10 / 10) * 10 + d.year / 10 % 10);
            assert(d.year == (d.year / 10) * 10 + d.year % 10);
            assert(d.month / 10 <= 9);
            assert(d.month == (d.month / 10) * 10 + d.month % 10);
            assert(d.day / 10 <= 9);
            assert(d.day == (d.day / 10) * 10 + d.day % 10);
            assert(s@[from + 1] == digit_char((d.year / 10 / 10 / 10 % 10) as nat));
            assert(d0 == d.year / 10 / 10 / 10 % 10);
            assert(d1 == d.year / 10 / 10 % 10);
            assert(d2 == d.year / 10 % 10);
            assert(d3 == d.year % 10);
            assert(m0 == d.month / 10 % 10);
            assert(m1 == d.month % 10);
            assert(a0 == d.day / 10 % 10);
            assert(a1 == d.day % 10);
        }
    }
    if !date.is_valid() {
        return None;
    }
    proof {
        assert(s@.subrange(from as int, from + 12) =~= canon_date(date)) by {
            assert(forall|t: int|
                0 <= t < 12 ==> #[trigger] s@.subrange(from as int, from + 12)[t] == s@[from + t]);
            assert(digit_char(d0 as nat) == s@[from + 1]);
            assert(digit_char(d1 as nat) == s@[from + 2]);
            assert(digit_char(d2 as nat) == s@[from + 3]);
            assert(digit_char(d3 as nat) == s@[from + 4]);
            assert(digit_char(m0 as nat) == s@[from + 6]);
            assert(digit_char(m1 as nat) == s@[from + 7]);
            assert(digit_char(a0 as nat) == s@[from + 9]);
            assert(digit_char(a1 as nat) == s@[from + 10]);
        }
    }
    Some((date, from + 12))
}

/// Canonical spelling of a boolean.
pub open spec fn canon_bool(b: bool) -> Seq<char> {
    if b {
        "true"@
    } else {
        "false"@
    }
}

/// Appends the canonical spelling of `b` to `out`.
pub fn emit_bool(out: &mut Vec<char>, b: bool)
    ensures
        final(out)@ == old(out)@ + canon_bool(b),
{
    if b {
        emit_lit(out, "true");
    } else {
        emit_lit(out, "false");
    }
}

/// Reads the canonical spelling of a boolean standing at `from`.
pub fn parse_bool(s: &Vec<char>, from: usize) -> (r: Option<(bool, usize)>)
    requires
        from <= s@.len(),
    ensures
        r is Some ==> from <= (r->0).1 <= s@.len() && s@.subrange(from as int, (r->0).1 as int)
            == canon_bool((r->0).0),
        forall|b: bool|
            #[trigger] match_at(s@, from as int, canon_bool(b)) ==> r == Some(
                (b, (from + canon_bool(b).len()) as usize),
            ),
{
    proof {
        reveal_strlit("true");
        reveal_strlit("false");
    }
    match expect_lit(s, from, "true") {
        Some(j) => {
            proof {
                assert forall|b: bool| match_at(s@, from as int, canon_bool(b)) implies Some(
                    (true, j),
                ) == Some((b, (from + canon_bool(b).len()) as usize)) by {
                    if !b {
                        assert(s@.subrange(from as int, from + "true"@.len())[0] == s@[from as int]);
                        assert(s@.subrange(from as int, from + "false"@.len())[0] == s@[
                            from as int]);
                    }
                }
            }
            return Some((true, j));
        },
        None => {},
    }
    match expect_lit(s, from, "false") {
        Some(j) => {
            proof {
                assert forall|b: bool| match_at(s@, from as int, canon_bool(b)) implies Some(
                    (false, j),
                ) == Some((b, (from + canon_bool(b).len()) as usize)) by {}
            }
            Some((false, j))
        },
        None => None,
    }
}

/// Spelling of the elements of a shock sequence from position `k` on: a
/// comma-space separator before each.
pub open spec fn canon_rest(ps: Seq<i32>, k: int) -> Seq<char>
    decreases ps.len() - k,
{
    if !(0 <= k < ps.len()) {
        Seq::empty()
    } else {
        seq![',', ' '] + canon_i32(ps[k]) + canon_rest(ps, k + 1)
    }
}

/// Spelling of the elements of a shock sequence, separated by comma-space.
pub open spec fn canon_vals(ps: Seq<i32>) -> Seq<char> {
    if ps.len() == 0 {
        Seq::empty()
    } else {
        canon_i32(ps[0]) + canon_rest(ps, 1)
    }
}

/// Canonical spelling of a whole shock sequence, brackets included.
pub open spec fn canon_points(ps: Seq<i32>) -> Seq<char> {
    seq!['['] + canon_vals(ps) + seq![']']
}

/// Appending an element appends its separated spelling.
proof fn lemma_canon_rest_push(ps: Seq<i32>, v: i32, k: int)
    requires
        0 <= k <= ps.len(),
    ensures
        canon_rest(ps.push(v), k) == canon_rest(ps, k) + seq![',', ' '] + canon_i32(v),
    decreases ps.len() - k,
{
    if k == ps.len() {
        assert(ps.push(v)[k] == v);
        assert(canon_rest(ps.push(v), k + 1) =~= Seq::<char>::empty());
        assert(canon_rest(ps, k) =~= Seq::<char>::empty());
        assert(canon_rest(ps.push(v), k) =~= canon_rest(ps, k) + seq![',', ' '] + canon_i32(v));
    } else {
        lemma_canon_rest_push(ps, v, k + 1);
        assert(ps.push(v)[k] == ps[k]);
        assert(canon_rest(ps.push(v), k) =~= canon_rest(ps, k) + seq![',', ' '] + canon_i32(v));
    }
}

/// Appending an element appends its separated spelling.
proof fn lemma_canon_vals_push(ps: Seq<i32>, v: i32)
    requires
        ps.len() >= 1,
    ensures
        canon_vals(ps.push(v)) == canon_vals(ps) + seq![',', ' '] + canon_i32(v),
{
    lemma_canon_rest_push(ps, v, 1);
    assert(ps.push(v)[0] == ps[0]);
    assert(canon_vals(ps.push(v)) =~= canon_vals(ps) + seq![',', ' '] + canon_i32(v));
}

/// Appends the canonical spelling of a whole shock sequence to `out`.
pub fn emit_points(out: &mut Vec<char>, pts: &Vec<i32>)
    requires
        pts@.len() == crate::curves::CURVE_HORIZON_YEARS,
        crate::curves::shocks_in_range(pts@),
    ensures
        final(out)@ == old(out)@ + canon_points(pts@),
{
    out.push('[');
    emit_shock(out, pts[0]);
    proof {
        assert(pts@.take(1) =~= seq![pts@[0]]);
        assert(canon_rest(pts@.take(1), 1) =~= Seq::<char>::empty());
        assert(canon_vals(pts@.take(1)) =~= canon_i32(pts@[0]));
        assert(out@ =~= old(out)@ + seq!['['] + canon_vals(pts@.take(1)));
    }
    let mut k: usize = 1;
    while k < crate::curves::CURVE_HORIZON_YEARS
        invariant
            1 <= k <= crate::curves::CURVE_HORIZON_YEARS,
            pts@.len() == crate::curves::CURVE_HORIZON_YEARS,
            crate::curves::shocks_in_range(pts@),
            out@ == old(out)@ + seq!['['] + canon_vals(pts@.take(k as int)),
        decreases crate::curves::CURVE_HORIZON_YEARS - k,
    {
        out.push(',');
        out.push(' ');
        emit_shock(out, pts[k]);
        proof {
            lemma_canon_vals_push(pts@.take(k as int), pts@[k as int]);
            assert(pts@.take(k as int).push(pts@[k as int]) =~= pts@.take(k as int + 1));
            assert(out@ =~= old(out)@ + seq!['['] + canon_vals(pts@.take(k as int + 1)));
        }
        k = k + 1;
    }
    out.push(']');
    proof {
        assert(pts@.take(crate::curves::CURVE_HORIZON_YEARS as int) =~= pts@);
        assert(out@ =~= old(out)@ + canon_points(pts@));
    }
}

/// The completeness hypothesis parse_points discharges: a canonical
/// spelling of some in-range ten-year shock sequence stands at `from`.
pub open spec fn points_hyp(s: Seq<char>, from: int, ps: Seq<i32>) -> bool {
    &&& ps.len() == crate::curves::CURVE_HORIZON_YEARS
    &&& crate::curves::shocks_in_range(ps)
    &&& match_at(s, from, canon_points(ps))
}

/// What a canonical shock-sequence spelling pins down about the text at the
/// element boundary `k`: the remaining elements and the closing bracket
/// stand right after the spelling of the first `k` elements.
proof fn lemma_points_step(s: Seq<char>, at: int, ps: Seq<i32>, k: int)
    requires
        0 <= k < ps.len(),
        crate::curves::shocks_in_range(ps),
        match_at(s, at, canon_rest(ps, k) + seq![']']),
    ensures
        s[at] == ',',
        s[at + 1] == ' ',
        match_at(s, at + 2, canon_i32(ps[k])),
        nondigit_after(s, at + 2 + canon_i32(ps[k]).len()),
        match_at(s, at + 2 + canon_i32(ps[k]).len(), canon_rest(ps, k + 1) + seq![']']),
{
    let sep = seq![',', ' '];
    let mid = canon_i32(ps[k]);
    let rest = canon_rest(ps, k + 1) + seq![']'];
    assert(canon_rest(ps, k) + seq![']'] =~= sep + (mid + rest));
    lemma_match_split(s, at, sep, mid + rest);
    lemma_match_split(s, at + 2, mid, rest);
    assert(s.subrange(at, at + 2)[0] == s[at]);
    assert(s.subrange(at, at + 2)[1] == s[at + 1]);
    assert(s[at + 2 + mid.len()] == rest[0]) by {
        assert(s.subrange(at + 2 + mid.len(), at + 2 + mid.len() + rest.len())[0] == s[at + 2
            + mid.len()]);
    }
    assert(rest[0] == ',' || rest[0] == ']') by {
        if k + 1 < ps.len() {
            assert(rest[0] == canon_rest(ps, k + 1)[0]);
        } else {
            assert(canon_rest(ps, k + 1) =~= Seq::<char>::empty());
        }
    }
}

/// Reads the canonical spelling of a ten-year in-range shock sequence
/// standing at `from`.
pub fn parse_points(s: &Vec<char>, from: usize) -> (r: Option<(Vec<i32>, usize)>)
    requires
        from <= s@.len(),
    ensures
        r is Some ==> from < (r->0).1 <= s@.len() && (r->0).0@.len()
            == crate::curves::CURVE_HORIZON_YEARS && crate::curves::shocks_in_range((r->0).0@)
            && s@.subrange(from as int, (r->0).1 as int) == canon_points((r->0).0@),
        forall|ps: Seq<i32>|
            #[trigger] points_hyp(s@, from as int, ps) ==> r is Some && (r->0).0@ == ps && (r->0).1
                == from + canon_points(ps).len(),
{
    proof {
        // a matching spelling opens with the bracket and continues with the
        // first element, separated values, and the closing bracket
        assert forall|ps: Seq<i32>| points_hyp(s@, from as int, ps) implies (from < s@.len() && s@[
            from as int] == '[' && match_at(s@, from as int + 1, canon_i32(ps[0])) && nondigit_after(
            s@,
            from + 1 + canon_i32(ps[0]).len(),
        ) && match_at(
            s@,
            from + 1 + canon_i32(ps[0]).len(),
            canon_rest(ps, 1) + seq![']'],
        ) && -500 <= ps[0] <= 500) by {
            let mid = canon_i32(ps[0]);
            let rest = canon_rest(ps, 1) + seq![']'];
            assert(canon_points(ps) =~= seq!['['] + (mid + rest));
            lemma_match_split(s@, from as int, seq!['['], mid + rest);
            lemma_match_split(s@, from as int + 1, mid, rest);
            assert(s@.subrange(from as int, from as int + 1)[0] == s@[from as int]);
            assert(s@[from + 1 + mid.len()] == rest[0]) by {
                assert(s@.subrange(from + 1 + mid.len(), from + 1 + mid.len() + rest.len())[0]
                    == s@[from + 1 + mid.len()]);
            }
            assert(rest[0] == ',' || rest[0] == ']') by {
                if 1 < ps.len() {
                    assert(rest[0] == canon_rest(ps, 1)[0]);
                } else {
                    assert(canon_rest(ps, 1) =~= Seq::<char>::empty());
                }
            }
        }
    }
    if from == s.len() {
        return None;
    }
    if s[from] != '[' {
        return None;
    }
    let (v0, j0) = match parse_shock(s, from + 1) {
        Some(p) => p,
        None => {
            return None;
        },
    };
    let mut acc: Vec<i32> = Vec::new();
    acc.push(v0);
    let mut j: usize = j0;
    proof {
        assert(acc@ =~= seq![v0]);
        assert(canon_vals(acc@) =~= canon_i32(v0)) by {
            assert(canon_rest(acc@, 1) =~= Seq::<char>::empty());
        }
        assert forall|ps: Seq<i32>| points_hyp(s@, from as int, ps) implies acc@ == ps.take(1)
            && match_at(s@, j as int, canon_rest(ps, 1) + seq![']']) by {
            assert(ps.take(1) =~= seq![ps[0]]);
        }
    }
    while acc.len() < crate::curves::CURVE_HORIZON_YEARS
        invariant
            from + 1 <= j <= s@.len(),
            1 <= acc@.len() <= crate::curves::CURVE_HORIZON_YEARS,
            crate::curves::shocks_in_range(acc@),
            s@.subrange(from as int + 1, j as int) == canon_vals(acc@),
            forall|ps: Seq<i32>|
                #[trigger] points_hyp(s@, from as int, ps) ==> acc@ == ps.take(acc@.len() as int)
                    && match_at(s@, j as int, canon_rest(ps, acc@.len() as int) + seq![']']),
        decreases crate::curves::CURVE_HORIZON_YEARS - acc@.len(),
    {
        let ghost k = acc@.len() as int;
        proof {
            assert forall|ps: Seq<i32>| points_hyp(s@, from as int, ps) implies (j + 2 <= s@.len()
                && s@[j as int] == ',' && s@[j as int + 1] == ' ' && match_at(
                s@,
                j as int + 2,
                canon_i32(ps[k]),
            ) && nondigit_after(s@, j + 2 + canon_i32(ps[k]).len()) && match_at(
                s@,
                j + 2 + canon_i32(ps[k]).len(),
                canon_rest(ps, k + 1) + seq![']'],
            ) && -500 <= ps[k] <= 500) by {
                lemma_points_step(s@, j as int, ps, k);
            }
        }
        if s.len() - j < 2 {
            return None;
        }
        if s[j] != ',' {
            return None;
        }
        if s[j + 1] != ' ' {
            return None;
        }
        let (v, j2) = match parse_shock(s, j + 2) {
            Some(p) => p,
            None => {
                return None;
            },
        };
        proof {
            lemma_canon_vals_push(acc@, v);
            assert(s@.subrange(from as int + 1, j2 as int) =~= canon_vals(acc@.push(v))) by {
                assert(s@.subrange(j as int, j as int + 2) =~= seq![',', ' ']) by {
                    assert(s@.subrange(j as int, j as int + 2)[0] == s@[j as int]);
                    assert(s@.subrange(j as int, j as int + 2)[1] == s@[j as int + 1]);
                }
                assert(forall|t: int|
                    0 <= t < j - from - 1 ==> #[trigger] canon_vals(acc@)[t] == s@.subrange(
                        from as int + 1,
                        j as int,
                    )[t]);
                assert(forall|t: int|
                    0 <= t < j2 - j - 2 ==> #[trigger] s@.subrange(j as int + 2, j2 as int)[t] == s@[
                        j + 2 + t]);
            }
            assert forall|ps: Seq<i32>| points_hyp(s@, from as int, ps) implies acc@.push(v)
                == ps.take(k + 1) && match_at(s@, j2 as int, canon_rest(ps, k + 1) + seq![']']) by {
                lemma_points_step(s@, j as int, ps, k);
                assert(v == ps[k] && j2 == j + 2 + canon_i32(ps[k]).len());
                assert(acc@.push(v) =~= ps.take(k + 1));
            }
        }
        acc.push(v);
        j = j2;
    }
    proof {
        assert forall|ps: Seq<i32>| points_hyp(s@, from as int, ps) implies (j < s@.len() && s@[
            j as int] == ']' && acc@ == ps && j + 1 == from + canon_points(ps).len()) by {
            assert(canon_rest(ps, acc@.len() as int) =~= Seq::<char>::empty());
            assert(match_at(s@, j as int, seq![']']));
            assert(s@.subrange(j as int, j as int + 1)[0] == s@[j as int]);
            assert(ps.take(acc@.len() as int) =~= ps);
            assert(canon_points(ps).len() == 2 + canon_vals(ps).len());
            assert(canon_vals(ps) == canon_vals(acc@));
        }
    }
    if j == s.len() {
        return None;
    }
    if s[j] != ']' {
        return None;
    }
    proof {
        assert(s@.subrange(from as int, j as int + 1) =~= canon_points(acc@)) by {
            assert(forall|t: int|
                0 <= t < j - from - 1 ==> #[trigger] canon_vals(acc@)[t] == s@.subrange(
                    from as int + 1,
                    j as int,
                )[t]);
        }
    }
    Some((acc, j + 1))
}

/// The text wrapped in double quotes.
pub open spec fn quoted(t: Seq<char>) -> Seq<char> {
    seq!['"'] + t + seq!['"']
}

/// Relies on `String::push`: appends the given character at the end of the
/// string. vstd gives this method no specification of its own.
pub assume_specification[ String::push ](s: &mut String, ch: char)
    ensures
        final(s)@ == old(s)@ + seq![ch],
;

/// Appends `lit` wrapped in double quotes to `out`.
pub fn emit_quoted(out: &mut Vec<char>, lit: &str)
    ensures
        final(out)@ == old(out)@ + quoted(lit@),
{
    out.push('"');
    emit_lit(out, lit);
    out.push('"');
    proof {
        assert(out@ =~= old(out)@ + quoted(lit@));
    }
}

/// What a quoted spelling of plain text pins down about the text: the
/// quotes stand at its ends and the plain characters between them.
pub proof fn lemma_quoted_shape(s: Seq<char>, from: int, f: Seq<char>)
    requires
        match_at(s, from, quoted(f)),
    ensures
        from + f.len() + 2 <= s.len(),
        s[from] == '"',
        s[from + 1 + f.len()] == '"',
        forall|t: int| 0 <= t < f.len() ==> s[from + 1 + t] == #[trigger] f[t],
{
    assert(quoted(f) =~= seq!['"'] + (f + seq!['"']));
    lemma_match_split(s, from, seq!['"'], f + seq!['"']);
    lemma_match_split(s, from + 1, f, seq!['"']);
    assert(s.subrange(from, from + 1)[0] == s[from]);
    assert(s.subrange(from + 1 + f.len(), from + 2 + f.len())[0] == s[from + 1 + f.len()]);
    assert(forall|t: int|
        0 <= t < f.len() ==> #[trigger] s.subrange(from + 1, from + 1 + f.len())[t] == s[from + 1
            + t]);
}

/// Reads a double-quoted run of plain text standing at `from`: non-empty,
/// no escapes, every character storable verbatim.
pub fn parse_folder(s: &Vec<char>, from: usize) -> (r: Option<(String, usize)>)
    requires
        from <= s@.len(),
    ensures
        r is Some ==> from < (r->0).1 <= s@.len() && (r->0).0@.len() >= 1 && crate::config::plain_text(
            (r->0).0@,
        ) && s@.subrange(from as int, (r->0).1 as int) == quoted((r->0).0@),
        forall|f: Seq<char>|
            (f.len() >= 1 && crate::config::plain_text(f) && #[trigger] match_at(
                s@,
                from as int,
                quoted(f),
            )) ==> r is Some && (r->0).0@ == f && (r->0).1 == from + f.len() + 2,
{
    proof {
        assert forall|f: Seq<char>|
            (f.len() >= 1 && crate::config::plain_text(f) && match_at(
                s@,
                from as int,
                quoted(f),
            )) implies (from < s@.len() && s@[from as int] == '"') by {
            lemma_quoted_shape(s@, from as int, f);
        }
    }
    if from == s.len() {
        return None;
    }
    if s[from] != '"' {
        return None;
    }
    let mut acc = String::new();
    let mut j: usize = from + 1;
    while j < s.len()
        invariant_except_break
            from + 1 <= j <= s@.len(),
            acc@ == s@.subrange(from as int + 1, j as int),
            forall|t: int| from + 1 <= t < j ==> s@[t] != '"' && crate::config::plain_char(s@[t]),
        ensures
            from + 1 <= j <= s@.len(),
            acc@ == s@.subrange(from as int + 1, j as int),
            forall|t: int| from + 1 <= t < j ==> s@[t] != '"' && crate::config::plain_char(s@[t]),
            j < s@.len() ==> s@[j as int] == '"',
        decreases s@.len() - j,
    {
        let c = s[j];
        if c == '"' {
            break ;
        }
        let u = c as u32;
        if u < 0x20 || u > 0x7e || c == '\\' {
            // not storable verbatim: no plain quoted text stands here
            proof {
                assert forall|f: Seq<char>|
                    !(f.len() >= 1 && crate::config::plain_text(f) && match_at(
                        s@,
                        from as int,
                        quoted(f),
                    )) by {
                    if f.len() >= 1 && crate::config::plain_text(f) && match_at(
                        s@,
                        from as int,
                        quoted(f),
                    ) {
                        lemma_quoted_shape(s@, from as int, f);
                        if j < from + 1 + f.len() {
                            assert(s@[j as int] == f[j - from - 1]);
                            assert(crate::config::plain_char(s@[j as int]));
                        } else {
                            assert(j > from + 1 + f.len() ==> s@[from + 1 + f.len()] != '"');
                            assert(j == from + 1 + f.len() ==> s@[j as int] == '"');
                        }
                    }
                }
            }
            return None;
        }
        acc.push(c);
        proof {
            assert(acc@ =~= s@.subrange(from as int + 1, j as int + 1));
        }
        j = j + 1;
    }
    if j == s.len() {
        // the text ran out before a closing quote
        proof {
            assert forall|f: Seq<char>|
                !(f.len() >= 1 && crate::config::plain_text(f) && match_at(
                    s@,
                    from as int,
                    quoted(f),
                )) by {
                if f.len() >= 1 && crate::config::plain_text(f) && match_at(
                    s@,
                    from as int,
                    quoted(f),
                ) {
                    lemma_quoted_shape(s@, from as int, f);
                }
            }
        }
        return None;
    }
    if j == from + 1 {
        // an empty run is not a folder name
        proof {
            assert forall|f: Seq<char>|
                !(f.len() >= 1 && crate::config::plain_text(f) && match_at(
                    s@,
                    from as int,
                    quoted(f),
                )) by {
                if f.len() >= 1 && crate::config::plain_text(f) && match_at(
                    s@,
                    from as int,
                    quoted(f),
                ) {
                    lemma_quoted_shape(s@, from as int, f);
                    assert(s@[from as int + 1] == f[0]);
                    assert(crate::config::plain_char(f[0]));
                }
            }
        }
        return None;
    }
    proof {
        assert(crate::config::plain_text(acc@)) by {
            assert(forall|t: int|
                0 <= t < acc@.len() ==> acc@[t] == #[trigger] s@[from + 1 + t]);
        }
        assert(s@.subrange(from as int, j as int + 1) =~= quoted(acc@)) by {
            assert(forall|t: int|
                0 <= t < acc@.len() ==> acc@[t] == #[trigger] s@[from + 1 + t]);
        }
        assert forall|f: Seq<char>|
            (f.len() >= 1 && crate::config::plain_text(f) && match_at(
                s@,
                from as int,
                quoted(f),
            )) implies acc@ == f && j + 1 == from + f.len() + 2 by {
            lemma_quoted_shape(s@, from as int, f);
            // the scan stopped at the first quote, which closes exactly f
            assert(j == from + 1 + f.len()) by {
                if j < from + 1 + f.len() {
                    assert(s@[j as int] == f[j - from - 1]);
                    assert(crate::config::plain_char(f[j - from - 1]));
                }
                if j > from + 1 + f.len() {
                    assert(s@[from + 1 + f.len()] != '"');
                }
            }
            assert(acc@ =~= f);
        }
    }
    Some((acc, j + 1))
}

} // verus!


