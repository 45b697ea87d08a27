use vstd::prelude::*;

verus! {

/// The symbols of the hash encoding: the 32 digits and lowercase letters
/// left once `g`, `i`, `l`, `o` are taken out.
pub open spec fn alphabet() -> Seq<char> {
    "0123456789abcdefhjkmnqprstuvwxyz"@
}

/// The number of symbols of an encoded hash: enough for every `u64`.
pub const ENCODED_WIDTH: usize = 13;

/// `b` to the power `e`.
pub open spec fn pow(b: nat, e: nat) -> nat
    decreases e,
{
    if e == 0 {
        1
    } else {
        b * pow(b, (e - 1) as nat)
    }
}

/// The base-32 digits of `n` in `alpha`, most significant first, without
/// leading zeros (`0` is one digit).
pub open spec fn digits(alpha: Seq<char>, n: nat) -> Seq<char>
    decreases n,
{
    if n < 32 {
        seq![alpha[n as int]]
    } else {
        digits(alpha, n / 32).push(alpha[(n % 32) as int])
    }
}

/// The number of bytes that `n` takes without leading zero bytes.
pub open spec fn byte_len(n: nat) -> nat
    decreases n,
{
    if n == 0 {
        0
    } else {
        1 + byte_len(n / 256)
    }
}

/// The leading zero bytes of the big-endian bytes of `h`, but for the last.
pub open spec fn leading_zero_bytes(h: u64) -> nat {
    if h == 0 {
        7
    } else {
        (8 - byte_len(h as nat)) as nat
    }
}

/// `k` copies of the first symbol of `alpha`.
pub open spec fn zeros(alpha: Seq<char>, k: nat) -> Seq<char> {
    Seq::new(k, |i: int| alpha[0])
}

/// What base-x makes of the big-endian bytes of `h` in the 32 symbols of
/// `alpha`: a zero symbol for each leading zero byte, then the digits.
pub open spec fn base_x_of(alpha: Seq<char>, h: u64) -> Seq<char> {
    zeros(alpha, leading_zero_bytes(h)) + digits(alpha, h as nat)
}

/// The `w` lowest base-32 digits of `n` in `alpha`, most significant first.
pub open spec fn fixed_digits(alpha: Seq<char>, n: nat, w: nat) -> Seq<char>
    decreases w,
{
    if w == 0 {
        Seq::empty()
    } else {
        fixed_digits(alpha, n / 32, (w - 1) as nat).push(alpha[(n % 32) as int])
    }
}

/// The encoding of a hash: its 13 base-32 digits in [`alphabet`].
pub open spec fn encoded(h: u64) -> Seq<char> {
    fixed_digits(alphabet(), h as nat, ENCODED_WIDTH as nat)
}

/// Relies on base_x::encode: the big-endian bytes of `h`, read as one number
/// and written in the 32 symbols of `alpha` with a zero symbol for each
/// leading zero byte but the last.
#[verifier::external_body]
fn base_x_encode(alpha: &str, h: u64) -> (r: String)
    requires
        alpha@.len() == 32,
    ensures
        r@ == base_x_of(alpha@, h),
{
    base_x::encode(alpha, &h.to_be_bytes())
}

proof fn lemma_fixed_zero(alpha: Seq<char>, w: nat)
    ensures
        fixed_digits(alpha, 0, w) == zeros(alpha, w),
    decreases w,
{
    if w > 0 {
        lemma_fixed_zero(alpha, (w - 1) as nat);
        assert(fixed_digits(alpha, 0, w) =~= zeros(alpha, w));
    }
}

/// Below `32^w`, the `w` fixed digits are the digits padded with zeros.
proof fn lemma_fixed_is_padded(alpha: Seq<char>, n: nat, w: nat)
    requires
        w >= 1,
        n < pow(32, w),
    ensures
        digits(alpha, n).len() <= w,
        fixed_digits(alpha, n, w) == zeros(alpha, (w - digits(alpha, n).len()) as nat)
            + digits(alpha, n),
    decreases w,
{
    if n < 32 {
        lemma_fixed_zero(alpha, (w - 1) as nat);
        assert(fixed_digits(alpha, n, w) =~= zeros(alpha, (w - 1) as nat) + digits(alpha, n));
    } else {
        assert(w >= 2) by {
            reveal_with_fuel(pow, 2);
        }
        assert(n / 32 < pow(32, (w - 1) as nat)) by (nonlinear_arith)
            requires
                n < pow(32, w),
                pow(32, w) == 32 * pow(32, (w - 1) as nat),
        ;
        lemma_fixed_is_padded(alpha, n / 32, (w - 1) as nat);
        assert(fixed_digits(alpha, n, w) =~= zeros(alpha, (w - digits(alpha, n).len()) as nat)
            + digits(alpha, n));
    }
}

proof fn lemma_byte_len_bound(n: nat)
    ensures
        n < pow(256, byte_len(n)),
    decreases n,
{
    if n > 0 {
        lemma_byte_len_bound(n / 256);
        let k = byte_len(n / 256);
        assert(n < 256 * pow(256, k)) by (nonlinear_arith)
            requires
                n / 256 < pow(256, k),
        ;
    }
}

proof fn lemma_byte_len_at_most(n: nat, k: nat)
    requires
        n < pow(256, k),
    ensures
        byte_len(n) <= k,
    decreases k,
{
    if n > 0 {
        if k == 0 {
            assert(false);
        } else {
            assert(n / 256 < pow(256, (k - 1) as nat)) by (nonlinear_arith)
                requires
                    n < pow(256, k),
                    pow(256, k) == 256 * pow(256, (k - 1) as nat),
            ;
            lemma_byte_len_at_most(n / 256, (k - 1) as nat);
        }
    }
}

/// What base-x writes for a `u64` never exceeds the width.
proof fn lemma_base_x_fits(alpha: Seq<char>, h: u64)
    ensures
        leading_zero_bytes(h) + digits(alpha, h as nat).len() <= ENCODED_WIDTH,
{
    if h == 0 {
        assert(digits(alpha, 0).len() == 1);
    } else {
        let n = h as nat;
        let b = byte_len(n);
        assert(pow(256, 8) == 0x1_0000_0000_0000_0000) by {
            reveal_with_fuel(pow, 9);
        }
        lemma_byte_len_at_most(n, 8);
        lemma_byte_len_bound(n);
        assert(b >= 1);
        assert(pow(256, b) <= pow(32, b + 5)) by {
            reveal_with_fuel(pow, 14);
        }
        lemma_fixed_is_padded(alpha, n, b + 5);
    }
}

/// Writes 64-bit hashes as short fixed-width strings.
pub struct HashEncoder;

impl HashEncoder {
    /// The 32 symbols of the encoding.
    pub const ALPHABET: &'static str = "0123456789abcdefhjkmnqprstuvwxyz";

    /// Encodes `hash` as its 13 base-32 digits, most significant first,
    /// zero-padded on the left.
    pub fn encode(hash: u64) -> (r: String)
        ensures
            r@ == encoded(hash),
            r@.len() == ENCODED_WIDTH,
    {
        let alpha = Self::ALPHABET;
        proof {
            reveal_strlit("0123456789abcdefhjkmnqprstuvwxyz");
            reveal_strlit("0");
        }
        let raw = base_x_encode(alpha, hash);
        let n = raw.unicode_len();
        proof {
            lemma_base_x_fits(alpha@, hash);
        }
        let mut r = String::new();
        let mut i: usize = n;
        while i < ENCODED_WIDTH
            invariant
                n <= i <= ENCODED_WIDTH,
                r@ == zeros(alpha@, (i - n) as nat),
                alpha@ == alphabet(),
                alpha@[0] == '0',
            decreases ENCODED_WIDTH - i,
        {
            proof {
                reveal_strlit("0");
            }
            r.append("0");
            assert(r@ =~= zeros(alpha@, (i + 1 - n) as nat));
            i += 1;
        }
        r.append(raw.as_str());
        proof {
            let ghost h = hash as nat;
            assert(pow(32, 13) == 0x2_0000_0000_0000_0000) by {
                reveal_with_fuel(pow, 14);
            }
            lemma_fixed_is_padded(alpha@, h, 13);
            let d = digits(alpha@, h);
            assert(r@ =~= zeros(alpha@, (13 - d.len()) as nat) + d);
        }
        r
    }
}

proof fn lemma_fixed_len(alpha: Seq<char>, n: nat, w: nat)
    ensures
        fixed_digits(alpha, n, w).len() == w,
    decreases w,
{
    if w > 0 {
        lemma_fixed_len(alpha, n / 32, (w - 1) as nat);
    }
}

proof fn lemma_fixed_injective(alpha: Seq<char>, n: nat, m: nat, w: nat)
    requires
        alpha.len() == 32,
        forall|i: int, j: int| 0 <= i < j < 32 ==> alpha[i] != alpha[j],
        n < pow(32, w),
        m < pow(32, w),
        fixed_digits(alpha, n, w) == fixed_digits(alpha, m, w),
    ensures
        n == m,
    decreases w,
{
    if w > 0 {
        let fn_ = fixed_digits(alpha, n / 32, (w - 1) as nat);
        let fm = fixed_digits(alpha, m / 32, (w - 1) as nat);
        lemma_fixed_len(alpha, n / 32, (w - 1) as nat);
        lemma_fixed_len(alpha, m / 32, (w - 1) as nat);
        assert(fixed_digits(alpha, n, w).last() == alpha[(n % 32) as int]);
        assert(fixed_digits(alpha, m, w).last() == alpha[(m % 32) as int]);
        assert(n % 32 == m % 32);
        assert(fn_ =~= fixed_digits(alpha, n, w).drop_last());
        assert(fm =~= fixed_digits(alpha, m, w).drop_last());
        assert(n / 32 < pow(32, (w - 1) as nat) && m / 32 < pow(32, (w - 1) as nat))
            by (nonlinear_arith)
            requires
                n < pow(32, w),
                m < pow(32, w),
                pow(32, w) == 32 * pow(32, (w - 1) as nat),
        ;
        lemma_fixed_injective(alpha, n / 32, m / 32, (w - 1) as nat);
    } else {
        assert(pow(32, 0) == 1);
    }
}

/// The 32 symbols are distinct.
proof fn lemma_alphabet_distinct()
    ensures
        alphabet().len() == 32,
        forall|i: int, j: int| 0 <= i < j < 32 ==> alphabet()[i] != alphabet()[j],
{
    reveal_strlit("0123456789abcdefhjkmnqprstuvwxyz");
    assert forall|i: int, j: int| 0 <= i < j < 32 implies alphabet()[i] != alphabet()[j] by {
        assert(alphabet()[i] as int != alphabet()[j] as int);
    }
}

/// Every encoding has the full width.
pub proof fn lemma_encoded_len(h: u64)
    ensures
        encoded(h).len() == ENCODED_WIDTH,
{
    lemma_fixed_len(alphabet(), h as nat, ENCODED_WIDTH as nat);
}

/// Distinct hashes have distinct encodings.
pub proof fn lemma_encoded_injective(h1: u64, h2: u64)
    requires
        encoded(h1) == encoded(h2),
    ensures
        h1 == h2,
{
    lemma_alphabet_distinct();
    assert(pow(32, 13) == 0x2_0000_0000_0000_0000) by {
        reveal_with_fuel(pow, 14);
    }
    lemma_fixed_injective(alphabet(), h1 as nat, h2 as nat, 13);
}

} // verus!
