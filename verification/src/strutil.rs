use vstd::prelude::*;

verus! {

/// The character for a single decimal digit.
pub open spec fn spec_digit_char(d: u32) -> char {
    if d == 0 { '0' }
    else if d == 1 { '1' }
    else if d == 2 { '2' }
    else if d == 3 { '3' }
    else if d == 4 { '4' }
    else if d == 5 { '5' }
    else if d == 6 { '6' }
    else if d == 7 { '7' }
    else if d == 8 { '8' }
    else { '9' }
}

/// The decimal value of a digit character, or `None` for any other character.
pub open spec fn spec_digit_val(c: char) -> Option<u32> {
    if c == '0' { Some(0u32) }
    else if c == '1' { Some(1u32) }
    else if c == '2' { Some(2u32) }
    else if c == '3' { Some(3u32) }
    else if c == '4' { Some(4u32) }
    else if c == '5' { Some(5u32) }
    else if c == '6' { Some(6u32) }
    else if c == '7' { Some(7u32) }
    else if c == '8' { Some(8u32) }
    else if c == '9' { Some(9u32) }
    else { None }
}

pub open spec fn spec_is_digit(c: char) -> bool {
    spec_digit_val(c) is Some
}

pub fn digit_char(d: u32) -> (c: char)
    requires
        d < 10,
    ensures
        c == spec_digit_char(d),
{
    if d == 0 { '0' }
    else if d == 1 { '1' }
    else if d == 2 { '2' }
    else if d == 3 { '3' }
    else if d == 4 { '4' }
    else if d == 5 { '5' }
    else if d == 6 { '6' }
    else if d == 7 { '7' }
    else if d == 8 { '8' }
    else { '9' }
}

pub fn digit_val(c: char) -> (r: Option<u32>)
    ensures
        r == spec_digit_val(c),
{
    if c == '0' { Some(0u32) }
    else if c == '1' { Some(1u32) }
    else if c == '2' { Some(2u32) }
    else if c == '3' { Some(3u32) }
    else if c == '4' { Some(4u32) }
    else if c == '5' { Some(5u32) }
    else if c == '6' { Some(6u32) }
    else if c == '7' { Some(7u32) }
    else if c == '8' { Some(8u32) }
    else if c == '9' { Some(9u32) }
    else { None }
}

/// Converting a digit to its character and back gives the digit again.
pub proof fn lemma_digit_char_val(d: u32)
    requires
        d < 10,
    ensures
        spec_digit_val(spec_digit_char(d)) == Some(d),
{
}

/// Converting a digit character to its value and back gives the character.
pub proof fn lemma_digit_val_char(c: char)
    requires
        spec_is_digit(c),
    ensures
        spec_digit_char(spec_digit_val(c)->Some_0) == c,
{
}

/// The decimal digits of `n`, most significant first, with no leading zero
/// except for `n == 0` itself.
pub open spec fn spec_u32_chars(n: u32) -> Seq<char>
    decreases n,
{
    if n < 10 {
        seq![spec_digit_char(n)]
    } else {
        spec_u32_chars(n / 10).push(spec_digit_char(n % 10))
    }
}

/// Appends the decimal digits of `n` to `out`.
pub fn push_u32_chars(n: u32, out: &mut Vec<char>)
    ensures
        final(out)@ == old(out)@ + spec_u32_chars(n),
    decreases n,
{
    if n < 10 {
        out.push(digit_char(n));
        proof {
            assert(out@ =~= old(out)@ + spec_u32_chars(n));
        }
    } else {
        push_u32_chars(n / 10, out);
        out.push(digit_char(n % 10));
        proof {
            assert(out@ =~= old(out)@ + spec_u32_chars(n));
        }
    }
}

/// Relies on `String`'s `FromIterator<char>` impl (through `Iterator::collect`):
/// the collected string holds exactly the characters of the iterator, in order.
#[verifier::external_body]
pub fn string_from_chars(v: &Vec<char>) -> (r: String)
    ensures
        r@ == v@,
{
    v.iter().collect()
}

/// Whether the string equals the literal, as character sequences.
pub fn string_eq(a: &String, b: &str) -> (r: bool)
    ensures
        r == (a@ == b@),
{
    let bo: String = b.to_owned();
    *a == bo
}

/// The sequences joined by single commas: empty for no elements, and no
/// comma added around an empty element.
pub open spec fn spec_join_commas(ts: Seq<Seq<char>>) -> Seq<char>
    decreases ts.len(),
{
    if ts.len() == 0 {
        Seq::empty()
    } else if ts.len() == 1 {
        ts[0]
    } else {
        spec_join_commas(ts.drop_last()) + seq![','] + ts.last()
    }
}

/// Joins the strings with commas, with no separators at the ends.
pub fn join_commas(ts: &Vec<String>) -> (r: String)
    ensures
        r@ == spec_join_commas(ts.deep_view()),
{
    let mut acc = String::new();
    let mut i: usize = 0;
    while i < ts.len()
        invariant
            i <= ts.len(),
            acc@ == spec_join_commas(ts.deep_view().take(i as int)),
        decreases ts.len() - i,
    {
        if i > 0 {
            acc.append(",");
        }
        acc.append(ts[i].as_str());
        proof {
            let dv = ts.deep_view();
            assert(dv.take(i + 1).drop_last() =~= dv.take(i as int));
            assert(dv.take(i + 1).last() == dv[i as int]);
            reveal_strlit(",");
            if i == 0 {
                assert(acc@ =~= spec_join_commas(dv.take(i + 1)));
            } else {
                assert(acc@ =~= spec_join_commas(dv.take(i as int)) + seq![','] + dv[i as int]);
            }
        }
        i = i + 1;
    }
    proof {
        assert(ts.deep_view().take(ts.len() as int) =~= ts.deep_view());
    }
    acc
}

/// Whether no element of `ts` contains a comma.
pub open spec fn spec_comma_free(ts: Seq<Seq<char>>) -> bool {
    forall|i: int, j: int|
        0 <= i < ts.len() && 0 <= j < ts[i].len() ==> #[trigger] ts[i][j] != ','
}

/// Splits the string at every comma. The result is pinned down as the unique
/// comma-free sequence of parts whose comma-join is the input: splitting is
/// the inverse of [`join_commas`].
pub fn split_commas(s: &str) -> (r: Vec<String>)
    ensures
        r.deep_view().len() >= 1,
        spec_join_commas(r.deep_view()) == s@,
        spec_comma_free(r.deep_view()),
{
    let mut parts: Vec<String> = Vec::new();
    let mut cur: Vec<char> = Vec::new();
    let n = s.unicode_len();
    let mut i: usize = 0;
    while i < n
        invariant
            n == s@.len(),
            i <= n,
            spec_join_commas(parts.deep_view().push(cur@)) == s@.take(i as int),
            spec_comma_free(parts.deep_view().push(cur@)),
        decreases n - i,
    {
        let c = s.get_char(i);
        let ghost dv0 = parts.deep_view();
        let ghost cur0 = cur@;
        proof {
            assert(s@.take(i + 1) =~= s@.take(i as int).push(s@[i as int]));
        }
        if c == ',' {
            let done = string_from_chars(&cur);
            parts.push(done);
            cur = Vec::new();
            proof {
                let dv = parts.deep_view();
                assert(dv =~= dv0.push(cur0));
                lemma_join_push_last(dv, Seq::<char>::empty());
                assert(spec_join_commas(dv.push(cur@)) =~= spec_join_commas(dv) + seq![','] + Seq::<char>::empty());
                assert(spec_join_commas(dv.push(cur@)) =~= s@.take(i as int).push(','));
                assert(spec_comma_free(dv.push(cur@)));
            }
        } else {
            cur.push(c);
            proof {
                let dv = parts.deep_view();
                assert(dv =~= dv0);
                assert(cur@ =~= cur0.push(c));
                if dv.len() == 0 {
                    assert(spec_join_commas(dv0.push(cur0)) == cur0);
                    assert(spec_join_commas(dv.push(cur@)) == cur@);
                    assert(spec_join_commas(dv.push(cur@)) =~= s@.take(i + 1));
                } else {
                    lemma_join_push_last(dv, cur@);
                    lemma_join_push_last(dv, cur0);
                    assert(spec_join_commas(dv.push(cur@)) =~= (spec_join_commas(dv) + seq![','] + cur0).push(c));
                    assert(spec_join_commas(dv.push(cur@)) =~= s@.take(i + 1));
                }
                assert forall|ii: int, jj: int|
                    0 <= ii < dv.push(cur@).len() && 0 <= jj < dv.push(cur@)[ii].len()
                        implies #[trigger] dv.push(cur@)[ii][jj] != ',' by {
                    if ii < dv.len() {
                        assert(dv.push(cur@)[ii] == dv0.push(cur0)[ii]);
                        assert(dv0.push(cur0)[ii][jj] != ',');
                    } else {
                        assert(dv.push(cur@)[ii] == cur@);
                        if jj < cur0.len() {
                            assert(cur@[jj] == cur0[jj]);
                            assert(dv0.push(cur0)[dv0.len() as int][jj] != ',');
                        } else {
                            assert(cur@[jj] == c);
                        }
                    }
                };
                assert(spec_comma_free(dv.push(cur@)));
            }
        }
        i = i + 1;
    }
    let ghost dvf = parts.deep_view();
    let ghost curf = cur@;
    let done = string_from_chars(&cur);
    parts.push(done);
    proof {
        assert(parts.deep_view() =~= dvf.push(curf));
        assert(s@.take(n as int) =~= s@);
    }
    parts
}

/// Joining `ts.push(x)` appends a comma and `x` when `ts` is non-empty.
pub proof fn lemma_join_push_last(ts: Seq<Seq<char>>, x: Seq<char>)
    ensures
        ts.len() >= 1 ==> spec_join_commas(ts.push(x)) == spec_join_commas(ts) + seq![','] + x,
        ts.len() == 0 ==> spec_join_commas(ts.push(x)) == x,
{
    if ts.len() >= 1 {
        assert(ts.push(x).drop_last() =~= ts);
        assert(ts.push(x).last() == x);
        assert(ts.push(x).len() >= 2);
    } else {
        assert(ts.push(x).len() == 1);
        assert(ts.push(x)[0] == x);
    }
}

/// The numeric value of a decimal digit string, most significant digit first.
/// Characters that are not digits count as zero; use [`spec_all_digits`]
/// alongside this.
pub open spec fn spec_dec_val(s: Seq<char>) -> nat
    decreases s.len(),
{
    if s.len() == 0 {
        0
    } else {
        10 * spec_dec_val(s.drop_last()) + (match spec_digit_val(s.last()) {
            Some(d) => d as nat,
            None => 0,
        })
    }
}

pub open spec fn spec_all_digits(s: Seq<char>) -> bool {
    forall|i: int| 0 <= i < s.len() ==> spec_is_digit(s[i])
}

/// The unsigned integer denoted by the string: an optional leading `+`,
/// then one or more decimal digits, with a value that fits in `u32`.
pub open spec fn spec_parse_u32(s: Seq<char>) -> Option<u32> {
    let t = if s.len() >= 1 && s[0] == '+' { s.skip(1) } else { s };
    if t.len() >= 1 && spec_all_digits(t) && spec_dec_val(t) <= u32::MAX {
        Some(spec_dec_val(t) as u32)
    } else {
        None
    }
}

/// Parses a decimal `u32`, rejecting anything but `+`-then-digits or digits,
/// and any value above `u32::MAX`.
pub fn parse_u32(s: &str) -> (r: Option<u32>)
    ensures
        r == spec_parse_u32(s@),
{
    let n = s.unicode_len();
    let start: usize = if n >= 1 && s.get_char(0) == '+' { 1 } else { 0 };
    let ghost t = if s@.len() >= 1 && s@[0] == '+' { s@.skip(1) } else { s@ };
    if n == start {
        return None;
    }
    let mut acc: u32 = 0;
    let mut over: bool = false;
    let mut i: usize = start;
    while i < n
        invariant
            n == s@.len(),
            start <= i <= n,
            start <= 1,
            t =~= s@.skip(start as int),
            t == (if s@.len() >= 1 && s@[0] == '+' { s@.skip(1) } else { s@ }),
            spec_all_digits(t.take(i - start)),
            !over ==> acc == spec_dec_val(t.take(i - start)),
            over ==> spec_dec_val(t.take(i - start)) > u32::MAX,
        decreases n - i,
    {
        let c = s.get_char(i);
        let d = match digit_val(c) {
            Some(d) => d,
            None => {
                proof {
                    assert(t[i - start] == s@[i as int]);
                    assert(!spec_is_digit(t[i - start]));
                    assert(!spec_all_digits(t));
                }
                return None;
            },
        };
        proof {
            assert(t[i - start] == s@[i as int]);
            assert(t.take(i - start + 1).drop_last() =~= t.take(i - start));
            assert(t.take(i - start + 1).last() == t[i - start]);
        }
        if over || acc > (u32::MAX - d) / 10 {
            over = true;
            proof {
                if spec_dec_val(t.take(i - start)) > u32::MAX {
                } else {
                    assert(10 * spec_dec_val(t.take(i - start)) + d as nat > u32::MAX);
                }
            }
        } else {
            acc = acc * 10 + d;
        }
        i = i + 1;
    }
    proof {
        assert(t.take(n - start) =~= t);
    }
    if over {
        None
    } else {
        Some(acc)
    }
}

} // verus!
