use vstd::prelude::*;
use crate::error::Error;

verus! {

// ---------------------------------------------------------------------------
// Decimal text, specified
// ---------------------------------------------------------------------------

/// `c` is an ASCII decimal digit.
pub open spec fn is_digit(c: char) -> bool {
    48 <= c as u32 <= 57
}

/// Numeric value of a digit character.
pub open spec fn digit_val(c: char) -> nat {
    (c as u32 - 48) as nat
}

/// The digit character for a value below ten.
pub open spec fn digit_char(d: nat) -> char {
    if d == 0 {
        '0'
    } else if d == 1 {
        '1'
    } else if d == 2 {
        '2'
    } else if d == 3 {
        '3'
    } else if d == 4 {
        '4'
    } else if d == 5 {
        '5'
    } else if d == 6 {
        '6'
    } else if d == 7 {
        '7'
    } else if d == 8 {
        '8'
    } else {
        '9'
    }
}

/// Shortest decimal rendering of `n` (so `0` renders as "0").
pub open spec fn dec_rep(n: nat) -> Seq<char>
    decreases n,
{
    if n < 10 {
        seq![digit_char(n)]
    } else {
        dec_rep(n / 10).push(digit_char(n % 10))
    }
}

/// The last `w` decimal digits of `n`, zero padded on the left to width `w`.
pub open spec fn dec_pad(n: nat, w: nat) -> Seq<char>
    decreases w,
{
    if w == 0 {
        Seq::empty()
    } else {
        dec_pad(n / 10, (w - 1) as nat).push(digit_char(n % 10))
    }
}

/// `s` with every trailing '0' removed.
pub open spec fn trim_zeros(s: Seq<char>) -> Seq<char>
    decreases s.len(),
{
    if s.len() > 0 && s.last() == '0' {
        trim_zeros(s.drop_last())
    } else {
        s
    }
}

pub open spec fn all_digits(s: Seq<char>) -> bool {
    forall|i: int| 0 <= i < s.len() ==> is_digit(s[i])
}

/// Value of a digit string read in base ten.
pub open spec fn digits_val(s: Seq<char>) -> nat
    decreases s.len(),
{
    if s.len() == 0 {
        0
    } else {
        digits_val(s.drop_last()) * 10 + digit_val(s.last())
    }
}

pub open spec fn pow10(w: nat) -> nat
    decreases w,
{
    if w == 0 {
        1
    } else {
        10 * pow10((w - 1) as nat)
    }
}

/// How many '.' characters `s` holds.
pub open spec fn dot_count(s: Seq<char>) -> nat
    decreases s.len(),
{
    if s.len() == 0 {
        0
    } else {
        dot_count(s.drop_last()) + if s.last() == '.' {
            1nat
        } else {
            0nat
        }
    }
}

/// Index of the first '.' in `s`, or `s.len()` if there is none.
pub open spec fn dot_pos(s: Seq<char>) -> int
    decreases s.len(),
{
    if s.len() == 0 {
        0
    } else if s[0] == '.' {
        0
    } else {
        1 + dot_pos(s.drop_first())
    }
}

// ---------------------------------------------------------------------------
// The time codec, specified
// ---------------------------------------------------------------------------

/// Canonical fixed-point rendering of a microsecond count:
/// whole seconds, '.', and exactly six fractional digits.
pub open spec fn spec_format_time(t: u64) -> Seq<char> {
    dec_rep((t / 1_000_000) as nat) + seq!['.'] + dec_pad((t % 1_000_000) as nat, 6)
}

/// On-disk rendering: the fixed-point form with trailing fractional
/// zeros removed (the '.' itself always stays).
pub open spec fn spec_encode_time(t: u64) -> Seq<char> {
    dec_rep((t / 1_000_000) as nat) + seq!['.'] + trim_zeros(dec_pad((t % 1_000_000) as nat, 6))
}

/// What decoding a decimal seconds string yields.
///
/// The string must hold exactly one '.'; the part before it is the whole
/// seconds, the part after it is truncated - not rounded - to six digits
/// and right padded with zeros to a microsecond remainder. A string
/// without exactly one '.' cannot be decomposed; any other malformation,
/// or a value beyond `u64::MAX` microseconds, is a plain decode error.
pub open spec fn spec_decode_time(s: Seq<char>) -> Result<u64, Error> {
    if dot_count(s) != 1 {
        Err(Error::InvalidTimeFormat)
    } else {
        let d = dot_pos(s);
        let left = s.take(d);
        let right = s.skip(d + 1);
        let frac = if right.len() < 6 {
            right
        } else {
            right.take(6)
        };
        if left.len() == 0 || !all_digits(left) || !all_digits(frac) {
            Err(Error::Decode)
        } else {
            let val = digits_val(left) * 1_000_000 + digits_val(frac) * pow10(
                (6 - frac.len()) as nat,
            );
            if val > u64::MAX {
                Err(Error::Decode)
            } else {
                Ok(val as u64)
            }
        }
    }
}

// ---------------------------------------------------------------------------
// Small facts about the spec functions
// ---------------------------------------------------------------------------

pub proof fn lemma_digit_char(d: nat)
    requires
        d < 10,
    ensures
        is_digit(digit_char(d)),
        digit_val(digit_char(d)) == d,
        digit_char(d) == '0' <==> d == 0,
        digit_char(d) != '.',
{
}

pub proof fn lemma_pow10_small()
    ensures
        pow10(0) == 1,
        pow10(1) == 10,
        pow10(2) == 100,
        pow10(3) == 1000,
        pow10(4) == 10000,
        pow10(5) == 100000,
        pow10(6) == 1000000,
{
    assert(pow10(0) == 1);
    assert(pow10(1) == 10);
    assert(pow10(2) == 100);
    assert(pow10(3) == 1000);
    assert(pow10(4) == 10000);
    assert(pow10(5) == 100000);
    assert(pow10(6) == 1000000);
}

/// Removing a trailing zero does not change what trimming yields.
pub proof fn lemma_trim_push_zero(s: Seq<char>)
    ensures
        trim_zeros(s.push('0')) == trim_zeros(s),
{
    assert(s.push('0').drop_last() =~= s);
}

/// A string that does not end in '0' trims to itself.
pub proof fn lemma_trim_id(s: Seq<char>)
    requires
        s.len() == 0 || s.last() != '0',
    ensures
        trim_zeros(s) == s,
{
}

pub proof fn lemma_dec_pad_len(n: nat, w: nat)
    ensures
        dec_pad(n, w).len() == w,
    decreases w,
{
    if w > 0 {
        lemma_dec_pad_len(n / 10, (w - 1) as nat);
    }
}

// ---------------------------------------------------------------------------
// Building decimal text
// ---------------------------------------------------------------------------

fn push_digit(out: &mut String, d: u64)
    requires
        d < 10,
    ensures
        final(out)@ == old(out)@ + seq![digit_char(d as nat)],
{
    proof {
        lemma_digit_char(d as nat);
    }
    if d == 0 {
        proof {
            reveal_strlit("0");
            assert("0"@ =~= seq![digit_char(0nat)]);
        }
        out.append("0");
    } else if d == 1 {
        proof {
            reveal_strlit("1");
            assert("1"@ =~= seq![digit_char(1nat)]);
        }
        out.append("1");
    } else if d == 2 {
        proof {
            reveal_strlit("2");
            assert("2"@ =~= seq![digit_char(2nat)]);
        }
        out.append("2");
    } else if d == 3 {
        proof {
            reveal_strlit("3");
            assert("3"@ =~= seq![digit_char(3nat)]);
        }
        out.append("3");
    } else if d == 4 {
        proof {
            reveal_strlit("4");
            assert("4"@ =~= seq![digit_char(4nat)]);
        }
        out.append("4");
    } else if d == 5 {
        proof {
            reveal_strlit("5");
            assert("5"@ =~= seq![digit_char(5nat)]);
        }
        out.append("5");
    } else if d == 6 {
        proof {
            reveal_strlit("6");
            assert("6"@ =~= seq![digit_char(6nat)]);
        }
        out.append("6");
    } else if d == 7 {
        proof {
            reveal_strlit("7");
            assert("7"@ =~= seq![digit_char(7nat)]);
        }
        out.append("7");
    } else if d == 8 {
        proof {
            reveal_strlit("8");
            assert("8"@ =~= seq![digit_char(8nat)]);
        }
        out.append("8");
    } else {
        proof {
            reveal_strlit("9");
            assert("9"@ =~= seq![digit_char(9nat)]);
        }
        out.append("9");
    }
}

/// Appends the shortest decimal rendering of `n`.
pub fn push_dec(out: &mut String, n: u64)
    ensures
        final(out)@ == old(out)@ + dec_rep(n as nat),
    decreases n,
{
    if n < 10 {
        push_digit(out, n);
    } else {
        push_dec(out, n / 10);
        push_digit(out, n % 10);
        proof {
            assert(old(out)@ + dec_rep((n / 10) as nat) + seq![digit_char((n % 10) as nat)]
                =~= old(out)@ + dec_rep(n as nat));
        }
    }
}

/// Appends the last `w` decimal digits of `n`, zero padded to width `w`.
pub fn push_dec_pad(out: &mut String, n: u64, w: u64)
    ensures
        final(out)@ == old(out)@ + dec_pad(n as nat, w as nat),
    decreases w,
{
    if w > 0 {
        push_dec_pad(out, n / 10, w - 1);
        push_digit(out, n % 10);
        proof {
            assert(old(out)@ + dec_pad((n / 10) as nat, (w - 1) as nat) + seq![digit_char(
                (n % 10) as nat,
            )] =~= old(out)@ + dec_pad(n as nat, w as nat));
        }
    } else {
        proof {
            assert(old(out)@ + dec_pad(n as nat, 0) =~= old(out)@);
        }
    }
}

// ---------------------------------------------------------------------------
// The codec, executable
// ---------------------------------------------------------------------------

/// Fixed-point rendering of a microsecond count: `"<seconds>.<6 digits>"`.
pub fn format_time(time: u64) -> (r: String)
    ensures
        r@ == spec_format_time(time),
{
    let mut out = String::new();
    push_dec(&mut out, time / 1_000_000);
    proof {
        reveal_strlit(".");
        assert("."@ =~= seq!['.']);
    }
    out.append(".");
    push_dec_pad(&mut out, time % 1_000_000, 6);
    proof {
        assert(out@ =~= spec_format_time(time));
    }
    out
}

/// On-disk rendering of a microsecond count: the fixed-point form with
/// trailing fractional zeros removed. A whole-second count thus ends in
/// a bare '.', which this codec itself reads back (see
/// `lemma_time_codec_round_trip`) but which is not a JSON number.
pub fn encode_time(time: u64) -> (r: String)
    ensures
        r@ == spec_encode_time(time),
{
    let mut out = String::new();
    push_dec(&mut out, time / 1_000_000);
    proof {
        reveal_strlit(".");
        assert("."@ =~= seq!['.']);
    }
    out.append(".");
    push_trim_frac(&mut out, time % 1_000_000);
    proof {
        assert(out@ =~= spec_encode_time(time));
    }
    out
}

/// Appends the six-digit microsecond remainder with its trailing zeros
/// removed; a zero remainder appends nothing.
pub fn push_trim_frac(out: &mut String, micros: u64)
    ensures
        final(out)@ == old(out)@ + trim_zeros(dec_pad(micros as nat, 6)),
{
    let mut m: u64 = micros;
    let mut w: u64 = 6;
    while w > 0 && m % 10 == 0
        invariant
            w <= 6,
            trim_zeros(dec_pad(m as nat, w as nat)) == trim_zeros(dec_pad(micros as nat, 6)),
        decreases w,
    {
        proof {
            lemma_digit_char((m % 10) as nat);
            assert(dec_pad(m as nat, w as nat) == dec_pad((m / 10) as nat, (w - 1) as nat).push(
                '0',
            ));
            lemma_trim_push_zero(dec_pad((m / 10) as nat, (w - 1) as nat));
        }
        m = m / 10;
        w = w - 1;
    }
    proof {
        if w > 0 {
            lemma_digit_char((m % 10) as nat);
            lemma_dec_pad_len(m as nat, w as nat);
            lemma_trim_id(dec_pad(m as nat, w as nat));
        } else {
            lemma_trim_id(dec_pad(m as nat, 0));
        }
    }
    push_dec_pad(out, m, w);
}

/// Extending a digit string multiplies its value by ten and adds the digit.
pub proof fn lemma_digits_val_step(s: Seq<char>, j: int)
    requires
        0 <= j < s.len(),
    ensures
        digits_val(s.take(j + 1)) == digits_val(s.take(j)) * 10 + digit_val(s[j]),
{
    assert(s.take(j + 1).drop_last() =~= s.take(j));
    assert(s.take(j + 1).last() == s[j]);
}

/// A digit string is worth at least any of its prefixes.
pub proof fn lemma_digits_val_grows(s: Seq<char>, j: int)
    requires
        0 <= j <= s.len(),
    ensures
        digits_val(s) >= digits_val(s.take(j)),
    decreases s.len() - j,
{
    if j < s.len() {
        lemma_digits_val_step(s, j);
        lemma_digits_val_grows(s, j + 1);
    } else {
        assert(s.take(j) =~= s);
    }
}

/// The first '.' of `s` stands where no earlier character is a '.'.
pub proof fn lemma_dot_pos_at(s: Seq<char>, d: int)
    requires
        0 <= d < s.len(),
        s[d] == '.',
        forall|j: int| 0 <= j < d ==> s[j] != '.',
    ensures
        dot_pos(s) == d,
    decreases d,
{
    if d > 0 {
        lemma_dot_pos_at(s.drop_first(), d - 1);
    }
}

/// The shortest rendering is nonempty, all digits, and reads back as `n`.
pub proof fn lemma_dec_rep_digits(n: nat)
    ensures
        dec_rep(n).len() >= 1,
        all_digits(dec_rep(n)),
        digits_val(dec_rep(n)) == n,
    decreases n,
{
    if n < 10 {
        lemma_digit_char(n);
        assert(dec_rep(n).drop_last() =~= Seq::<char>::empty());
        assert(digits_val(Seq::<char>::empty()) == 0);
        assert(dec_rep(n).last() == digit_char(n));
    } else {
        lemma_dec_rep_digits(n / 10);
        lemma_digit_char(n % 10);
        assert(dec_rep(n).drop_last() =~= dec_rep(n / 10));
        assert(dec_rep(n).last() == digit_char(n % 10));
        assert forall|i: int| 0 <= i < dec_rep(n).len() implies is_digit(
            #[trigger] dec_rep(n)[i],
        ) by {
            if i < dec_rep(n).len() - 1 {
                assert(dec_rep(n)[i] == dec_rep(n / 10)[i]);
            } else {
                assert(dec_rep(n)[i] == digit_char(n % 10));
            }
        }
    }
}

/// A padded rendering of a value in range is all digits and reads back as `n`.
pub proof fn lemma_dec_pad_digits(n: nat, w: nat)
    requires
        n < pow10(w),
    ensures
        all_digits(dec_pad(n, w)),
        digits_val(dec_pad(n, w)) == n,
    decreases w,
{
    if w > 0 {
        lemma_dec_pad_digits(n / 10, (w - 1) as nat);
        lemma_digit_char(n % 10);
        assert(dec_pad(n, w).drop_last() =~= dec_pad(n / 10, (w - 1) as nat));
        assert(dec_pad(n, w).last() == digit_char(n % 10));
        lemma_dec_pad_len(n, w);
        assert forall|i: int| 0 <= i < dec_pad(n, w).len() implies is_digit(
            #[trigger] dec_pad(n, w)[i],
        ) by {
            if i < dec_pad(n, w).len() - 1 {
                assert(dec_pad(n, w)[i] == dec_pad(n / 10, (w - 1) as nat)[i]);
            } else {
                assert(dec_pad(n, w)[i] == digit_char(n % 10));
            }
        }
    }
}

/// Trimming keeps the digits and only divides out trailing zeros:
/// re-padding the trimmed string to the original width reads back the
/// same value.
pub proof fn lemma_trim_digits(s: Seq<char>)
    requires
        all_digits(s),
    ensures
        all_digits(trim_zeros(s)),
        trim_zeros(s).len() <= s.len(),
        digits_val(trim_zeros(s)) * pow10((s.len() - trim_zeros(s).len()) as nat) == digits_val(
            s,
        ),
    decreases s.len(),
{
    if s.len() > 0 && s.last() == '0' {
        assert(all_digits(s.drop_last()));
        lemma_trim_digits(s.drop_last());
        let r = trim_zeros(s.drop_last());
        let k = (s.drop_last().len() - r.len()) as nat;
        assert(digit_val('0') == 0);
        assert(digits_val(s) == digits_val(s.drop_last()) * 10);
        assert(digits_val(r) * pow10(k) == digits_val(s.drop_last()));
        assert(pow10(k + 1) == 10 * pow10(k));
        assert(digits_val(r) * pow10(k + 1) == digits_val(r) * pow10(k) * 10) by (
        nonlinear_arith)
            requires
                pow10(k + 1) == 10 * pow10(k),
        ;
        assert(trim_zeros(s) == r);
        assert((s.len() - trim_zeros(s).len()) as nat == k + 1);
        assert(digits_val(r) * pow10(k + 1) == digits_val(s));
        assert(digits_val(trim_zeros(s)) == digits_val(r));
        assert(pow10((s.len() - trim_zeros(s).len()) as nat) == pow10(k + 1));
        assert(digits_val(trim_zeros(s)) * pow10((s.len() - trim_zeros(s).len()) as nat)
            == digits_val(s));
    } else {
        assert(trim_zeros(s) == s);
        assert(trim_zeros(s).len() == s.len());
        assert((s.len() - trim_zeros(s).len()) as nat == 0);
        assert(pow10((s.len() - trim_zeros(s).len()) as nat) == 1);
        assert(digits_val(trim_zeros(s)) == digits_val(s));
        assert(digits_val(trim_zeros(s)) * pow10((s.len() - trim_zeros(s).len()) as nat)
            == digits_val(s));
    }
}

/// A string of digits holds no dot.
pub proof fn lemma_all_digits_no_dot(s: Seq<char>)
    requires
        all_digits(s),
    ensures
        dot_count(s) == 0,
    decreases s.len(),
{
    if s.len() > 0 {
        assert(all_digits(s.drop_last()));
        lemma_all_digits_no_dot(s.drop_last());
        assert(is_digit(s.last()));
    }
}

/// Dots are counted piecewise across a concatenation.
pub proof fn lemma_dot_count_concat(a: Seq<char>, b: Seq<char>)
    ensures
        dot_count(a + b) == dot_count(a) + dot_count(b),
    decreases b.len(),
{
    if b.len() == 0 {
        assert(a + b =~= a);
    } else {
        assert((a + b).drop_last() =~= a + b.drop_last());
        assert((a + b).last() == b.last());
        lemma_dot_count_concat(a, b.drop_last());
    }
}

/// The codec reads back exactly what it wrote: decoding the on-disk
/// rendering of any microsecond count yields that count again, including
/// for whole seconds, whose rendering ends in a bare '.'.
pub proof fn lemma_time_codec_round_trip(t: u64)
    ensures
        spec_decode_time(spec_encode_time(t)) == Ok::<u64, Error>(t),
{
    let secs = (t / 1_000_000) as nat;
    let m = (t % 1_000_000) as nat;
    let left = dec_rep(secs);
    let p = dec_pad(m, 6);
    let r = trim_zeros(p);
    let s = spec_encode_time(t);
    lemma_pow10_small();
    lemma_dec_rep_digits(secs);
    lemma_dec_pad_len(m, 6);
    lemma_dec_pad_digits(m, 6);
    lemma_trim_digits(p);
    lemma_all_digits_no_dot(left);
    lemma_all_digits_no_dot(r);
    lemma_dot_count_concat(left, seq!['.']);
    lemma_dot_count_concat(left + seq!['.'], r);
    assert(dot_count(seq!['.']) == 1) by {
        assert(seq!['.'].len() == 1);
        assert(seq!['.'].last() == '.');
        assert(seq!['.'].drop_last() =~= Seq::<char>::empty());
        assert(dot_count(Seq::<char>::empty()) == 0);
        assert(dot_count(seq!['.'].drop_last()) == 0);
    }
    assert(dot_count(s) == 1);
    let d = left.len() as int;
    assert(s[d] == '.');
    assert(forall|j: int| 0 <= j < d ==> s[j] == left[j] && s[j] != '.');
    lemma_dot_pos_at(s, d);
    assert(s.take(d) =~= left);
    assert(s.skip(d + 1) =~= r);
    let frac = if r.len() < 6 {
        r
    } else {
        r.take(6)
    };
    assert(frac =~= r);
    assert(digits_val(r) * pow10((6 - r.len()) as nat) == m);
    assert(digits_val(left) * 1_000_000 + m == t);
}

fn pow10_exec(w: u64) -> (r: u64)
    requires
        w <= 6,
    ensures
        r == pow10(w as nat),
{
    proof {
        lemma_pow10_small();
    }
    if w == 0 {
        1
    } else if w == 1 {
        10
    } else if w == 2 {
        100
    } else if w == 3 {
        1000
    } else if w == 4 {
        10000
    } else if w == 5 {
        100000
    } else {
        1000000
    }
}

/// Decodes a decimal seconds string into a microsecond count, exactly as
/// `spec_decode_time` states it.
#[verifier::rlimit(60)]
#[verifier::loop_isolation(false)]
pub fn decode_time(s: &str) -> (r: Result<u64, Error>)
    ensures
        r == spec_decode_time(s@),
{
    let n = s.unicode_len();
    // Find the first '.' and count how many there are.
    let mut i: usize = 0;
    let mut dots: usize = 0;
    let mut dotp: usize = n;
    while i < n
        invariant
            n == s@.len(),
            i <= n,
            dots <= i,
            dots == dot_count(s@.take(i as int)),
            dots == 0 ==> dotp == n && (forall|j: int| 0 <= j < i ==> s@[j] != '.'),
            dots > 0 ==> dotp < i && s@[dotp as int] == '.' && (forall|j: int|
                0 <= j < dotp ==> s@[j] != '.'),
        decreases n - i,
    {
        let c = s.get_char(i);
        proof {
            assert(s@.take(i as int + 1).drop_last() =~= s@.take(i as int));
            assert(s@.take(i as int + 1).last() == s@[i as int]);
        }
        if c == '.' {
            if dots == 0 {
                dotp = i;
            }
            dots = dots + 1;
        }
        i = i + 1;
    }
    proof {
        assert(s@.take(n as int) =~= s@);
    }
    if dots != 1 {
        return Err(Error::InvalidTimeFormat);
    }
    let d = dotp;
    proof {
        lemma_dot_pos_at(s@, d as int);
    }
    if d == 0 {
        return Err(Error::Decode);
    }
    let ghost left = s@.take(d as int);
    let ghost right = s@.skip(d as int + 1);
    let ghost frac = if right.len() < 6 {
        right
    } else {
        right.take(6)
    };
    // Whole seconds.
    let mut acc: u64 = 0;
    let mut j: usize = 0;
    while j < d
        invariant
            n == s@.len(),
            0 < d < n,
            j <= d,
            left == s@.take(d as int),
            acc == digits_val(left.take(j as int)),
            forall|k: int| 0 <= k < j ==> is_digit(#[trigger] left[k]),
        decreases d - j,
    {
        let c = s.get_char(j);
        proof {
            assert(left[j as int] == s@[j as int]);
        }
        let u = c as u32;
        if u < 48 || u > 57 {
            proof {
                assert(!is_digit(left[j as int]));
            }
            return Err(Error::Decode);
        }
        let dv = (u - 48) as u64;
        proof {
            lemma_digits_val_step(left, j as int);
        }
        if acc > (u64::MAX - dv) / 10 {
            proof {
                assert(acc * 10 + dv > u64::MAX) by (nonlinear_arith)
                    requires
                        acc > (u64::MAX - dv) / 10,
                        dv <= 9,
                ;
                lemma_digits_val_grows(left, j as int + 1);
                assert(digits_val(left) > u64::MAX);
                assert(digits_val(left) * 1_000_000 >= digits_val(left)) by (nonlinear_arith);
            }
            return Err(Error::Decode);
        }
        acc = acc * 10 + dv;
        j = j + 1;
    }
    proof {
        assert(left.take(d as int) =~= left);
        assert(all_digits(left));
    }
    // Fractional part, truncated to six digits.
    let rem = n - d - 1;
    let kk: usize = if rem < 6 {
        rem
    } else {
        6
    };
    proof {
        assert(right.len() == rem);
        assert(frac.len() == kk);
        assert(forall|x: int| 0 <= x < frac.len() ==> frac[x] == s@[d + 1 + x]);
        lemma_pow10_small();
    }
    let mut fr: u64 = 0;
    let mut j2: usize = 0;
    while j2 < kk
        invariant
            n == s@.len(),
            0 < d < n,
            kk <= 6,
            kk <= n - d - 1,
            j2 <= kk,
            frac.len() == kk,
            forall|x: int| 0 <= x < frac.len() ==> frac[x] == s@[d + 1 + x],
            fr == digits_val(frac.take(j2 as int)),
            fr < pow10(j2 as nat),
            forall|k: int| 0 <= k < j2 ==> is_digit(#[trigger] frac[k]),
        decreases kk - j2,
    {
        let c = s.get_char(d + 1 + j2);
        let u = c as u32;
        if u < 48 || u > 57 {
            proof {
                assert(!is_digit(frac[j2 as int]));
            }
            return Err(Error::Decode);
        }
        let dv = (u - 48) as u64;
        proof {
            lemma_digits_val_step(frac, j2 as int);
            lemma_pow10_small();
            assert(pow10((j2 + 1) as nat) == 10 * pow10(j2 as nat));
        }
        fr = fr * 10 + dv;
        j2 = j2 + 1;
    }
    proof {
        assert(frac.take(kk as int) =~= frac);
        assert(all_digits(frac));
        lemma_pow10_small();
    }
    let mult = pow10_exec(6 - (kk as u64));
    proof {
        assert(fr * mult < pow10(kk as nat) * pow10((6 - kk) as nat)) by (nonlinear_arith)
            requires
                fr < pow10(kk as nat),
                mult == pow10((6 - kk) as nat),
                pow10(kk as nat) > 0,
                pow10((6 - kk) as nat) > 0,
        ;
        assert(pow10(kk as nat) * pow10((6 - kk) as nat) <= 1000000 * 1000000) by (
        nonlinear_arith)
            requires
                pow10(kk as nat) <= 1000000,
                pow10((6 - kk) as nat) <= 1000000,
        ;
        assert(pow10(kk as nat) <= 1000000 && pow10((6 - kk) as nat) <= 1000000) by {
            lemma_pow10_small();
            assert(kk == 0 || kk == 1 || kk == 2 || kk == 3 || kk == 4 || kk == 5 || kk == 6);
        }
    }
    let micros = fr * mult;
    // Combine, rejecting values beyond the representable range.
    if acc > u64::MAX / 1_000_000 {
        proof {
            assert(acc * 1_000_000 > u64::MAX) by (nonlinear_arith)
                requires
                    acc > u64::MAX / 1_000_000,
            ;
        }
        return Err(Error::Decode);
    }
    let secs = acc * 1_000_000;
    if micros > u64::MAX - secs {
        return Err(Error::Decode);
    }
    Ok(secs + micros)
}

} // verus!
