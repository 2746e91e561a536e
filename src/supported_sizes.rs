use vstd::prelude::*;
use vstd::string::StrSliceExecFns;

verus! {

/// The closed set of point lengths that a collection may have.
#[derive(Clone, Copy, Debug, PartialEq, Eq, Structural)]
pub enum SupportedSize {
    /// The smallest size, one lane wide; meant for debugging.
    U4,
    U64,
    U128,
    U256,
    U512,
}

/// The number of coordinates that a size stands for.
pub open spec fn size_value(s: SupportedSize) -> nat {
    match s {
        SupportedSize::U4 => 4,
        SupportedSize::U64 => 64,
        SupportedSize::U128 => 128,
        SupportedSize::U256 => 256,
        SupportedSize::U512 => 512,
    }
}

/// Whether `n` is the length of one of the supported sizes.
pub open spec fn is_supported(n: nat) -> bool {
    n == 4 || n == 64 || n == 128 || n == 256 || n == 512
}

/// All supported sizes, smallest first.
pub open spec fn all_sizes() -> Seq<SupportedSize> {
    seq![
        SupportedSize::U4,
        SupportedSize::U64,
        SupportedSize::U128,
        SupportedSize::U256,
        SupportedSize::U512,
    ]
}

/// The character of a decimal digit.
pub open spec fn digit_char(d: nat) -> char {
    if d == 0 {
        '0'
    } else if d == 1 {
        '1'
    } else if d == 2 {
        '2'
    } else if d == 3 {
        '3'
    } else if d == 4 {
        '4'
    } else if d == 5 {
        '5'
    } else if d == 6 {
        '6'
    } else if d == 7 {
        '7'
    } else if d == 8 {
        '8'
    } else {
        '9'
    }
}

/// The decimal notation of `n`, without leading zeros.
pub open spec fn decimal(n: nat) -> Seq<char>
    decreases n,
{
    if n < 10 {
        seq![digit_char(n)]
    } else {
        decimal(n / 10).push(digit_char(n % 10))
    }
}

/// Each size of `sizes` in decimal, each followed by a comma and a space.
pub open spec fn choices_text(sizes: Seq<SupportedSize>) -> Seq<char>
    decreases sizes.len(),
{
    if sizes.len() == 0 {
        Seq::empty()
    } else {
        choices_text(sizes.drop_last()) + decimal(size_value(sizes.last())) + seq![',', ' ']
    }
}

/// Whether `c` is an ASCII decimal digit.
pub open spec fn is_digit(c: char) -> bool {
    '0' <= c && c <= '9'
}

/// The value of the decimal digits `s`, most significant first.
pub open spec fn digits_value(s: Seq<char>) -> nat
    decreases s.len(),
{
    if s.len() == 0 {
        0
    } else {
        digits_value(s.drop_last()) * 10 + ((s.last() as u32) - 48) as nat
    }
}

/// The text of a number without its leading `+`, if it has one.
pub open spec fn unsigned_body(s: Seq<char>) -> Seq<char> {
    if s.len() > 0 && s[0] == '+' {
        s.drop_first()
    } else {
        s
    }
}

/// `s` is the decimal notation of an unsigned integer that fits in a
/// `usize`: an optional `+`, then one or more digits.
pub open spec fn is_usize_text(s: Seq<char>) -> bool {
    let b = unsigned_body(s);
    &&& b.len() > 0
    &&& forall|i: int| 0 <= i < b.len() ==> is_digit(#[trigger] b[i])
    &&& digits_value(b) <= usize::MAX
}

/// Why a text does not name a supported size.
#[derive(Debug, Clone, Copy, PartialEq, Eq, Structural)]
pub enum SupportedSizeConversionError {
    /// The text is not an unsigned integer that fits in a `usize`.
    ParseIntError,
    /// The number is not one of the supported lengths.
    InvalidSize(usize),
}

/// Appends the decimal notation of `n` to `s`.
pub(crate) fn append_decimal(s: &mut String, n: usize)
    ensures
        final(s)@ == old(s)@ + decimal(n as nat),
    decreases n,
{
    if n >= 10 {
        append_decimal(s, n / 10);
    }
    let d = n % 10;
    proof {
        reveal_strlit("0");
        reveal_strlit("1");
        reveal_strlit("2");
        reveal_strlit("3");
        reveal_strlit("4");
        reveal_strlit("5");
        reveal_strlit("6");
        reveal_strlit("7");
        reveal_strlit("8");
        reveal_strlit("9");
    }
    let digit = if d == 0 {
        "0"
    } else if d == 1 {
        "1"
    } else if d == 2 {
        "2"
    } else if d == 3 {
        "3"
    } else if d == 4 {
        "4"
    } else if d == 5 {
        "5"
    } else if d == 6 {
        "6"
    } else if d == 7 {
        "7"
    } else if d == 8 {
        "8"
    } else {
        "9"
    };
    assert(digit@ == seq![digit_char(d as nat)]);
    s.append(digit);
}

impl SupportedSize {
    /// The number of coordinates of a point of this size.
    pub fn value(self) -> (r: usize)
        ensures
            r as nat == size_value(self),
    {
        match self {
            SupportedSize::U4 => 4,
            SupportedSize::U64 => 64,
            SupportedSize::U128 => 128,
            SupportedSize::U256 => 256,
            SupportedSize::U512 => 512,
        }
    }

    /// The size whose length is `n`, if `n` is supported.
    pub fn from_len(n: usize) -> (r: Option<SupportedSize>)
        ensures
            r is Some <==> is_supported(n as nat),
            r matches Some(s) ==> size_value(s) == n,
    {
        if n == 4 {
            Some(SupportedSize::U4)
        } else if n == 64 {
            Some(SupportedSize::U64)
        } else if n == 128 {
            Some(SupportedSize::U128)
        } else if n == 256 {
            Some(SupportedSize::U256)
        } else if n == 512 {
            Some(SupportedSize::U512)
        } else {
            None
        }
    }

    /// The size named by `text`, an unsigned decimal integer with an
    /// optional leading `+`.
    pub fn parse(text: &str) -> (r: Result<SupportedSize, SupportedSizeConversionError>)
        ensures
            !is_usize_text(text@) ==> r == Err::<SupportedSize, SupportedSizeConversionError>(
                SupportedSizeConversionError::ParseIntError,
            ),
            is_usize_text(text@) && !is_supported(digits_value(unsigned_body(text@))) ==> r
                == Err::<SupportedSize, SupportedSizeConversionError>(
                SupportedSizeConversionError::InvalidSize(
                    digits_value(unsigned_body(text@)) as usize,
                ),
            ),
            is_usize_text(text@) && is_supported(digits_value(unsigned_body(text@))) ==> (r matches Ok(
                size,
            ) && size_value(size) == digits_value(unsigned_body(text@))),
    {
        let len = text.unicode_len();
        let ghost body = unsigned_body(text@);
        let start: usize = if len > 0 && text.get_char(0) == '+' {
            1
        } else {
            0
        };
        assert(body =~= text@.subrange(start as int, len as int));
        if start == len {
            return Err(SupportedSizeConversionError::ParseIntError);
        }
        let mut value: usize = 0;
        let mut overflow = false;
        let mut k: usize = start;
        while k < len
            invariant
                len == text@.len(),
                body == unsigned_body(text@),
                body == text@.subrange(start as int, len as int),
                start <= k <= len,
                forall|i: int| start <= i < k ==> is_digit(#[trigger] text@[i]),
                !overflow ==> value == digits_value(text@.subrange(start as int, k as int)),
                overflow ==> digits_value(text@.subrange(start as int, k as int)) > usize::MAX,
            decreases len - k,
        {
            let c = text.get_char(k);
            if !('0' <= c && c <= '9') {
                assert(!is_digit(body[k - start]));
                return Err(SupportedSizeConversionError::ParseIntError);
            }
            let d = (c as u32 - 48) as usize;
            let ghost prev = text@.subrange(start as int, k as int);
            let ghost next = text@.subrange(start as int, k + 1);
            assert(next.drop_last() =~= prev);
            assert(next.last() == c);
            assert(digits_value(next) == digits_value(prev) * 10 + d);
            if !overflow {
                if value > (usize::MAX - d) / 10 {
                    overflow = true;
                    assert(digits_value(prev) * 10 + d > usize::MAX) by (nonlinear_arith)
                        requires
                            digits_value(prev) == value,
                            value > (usize::MAX - d) / 10,
                            d <= 9,
                    ;
                } else {
                    assert(value * 10 + d <= usize::MAX) by (nonlinear_arith)
                        requires
                            value <= (usize::MAX - d) / 10,
                            d <= 9,
                    ;
                    value = value * 10 + d;
                }
            } else {
                assert(digits_value(prev) * 10 + d >= digits_value(prev)) by (nonlinear_arith);
            }
            k = k + 1;
        }
        assert(text@.subrange(start as int, len as int) =~= body);
        assert forall|i: int| 0 <= i < body.len() implies is_digit(#[trigger] body[i]) by {
            assert(body[i] == text@[start + i]);
        }
        if overflow {
            return Err(SupportedSizeConversionError::ParseIntError);
        }
        match SupportedSize::from_len(value) {
            Some(size) => Ok(size),
            None => Err(SupportedSizeConversionError::InvalidSize(value)),
        }
    }

    /// All supported sizes, smallest first.
    pub fn all() -> (r: Vec<SupportedSize>)
        ensures
            r@ == all_sizes(),
    {
        let r = vec![
            SupportedSize::U4,
            SupportedSize::U64,
            SupportedSize::U128,
            SupportedSize::U256,
            SupportedSize::U512,
        ];
        assert(r@ =~= all_sizes());
        r
    }

    /// The supported lengths in decimal, smallest first, each followed by
    /// ", ", for messages that tell the user what they may choose.
    pub fn possible_choices() -> (r: String)
        ensures
            r@ == choices_text(all_sizes()),
    {
        let sizes = SupportedSize::all();
        let mut text = String::new();
        let mut i: usize = 0;
        while i < sizes.len()
            invariant
                sizes@ == all_sizes(),
                0 <= i <= sizes@.len(),
                text@ == choices_text(sizes@.subrange(0, i as int)),
            decreases sizes@.len() - i,
        {
            let ghost before = text@;
            let n = sizes[i].value();
            append_decimal(&mut text, n);
            proof {
                reveal_strlit(", ");
            }
            text.append(", ");
            proof {
                assert(text@ =~= before + decimal(n as nat) + seq![',', ' ']);
                let next = sizes@.subrange(0, i + 1);
                assert(next.drop_last() =~= sizes@.subrange(0, i as int));
                assert(next.last() == sizes@[i as int]);
            }
            i = i + 1;
        }
        assert(sizes@.subrange(0, sizes@.len() as int) =~= sizes@);
        text
    }
}

impl std::str::FromStr for SupportedSize {
    type Err = SupportedSizeConversionError;

    fn from_str(s: &str) -> Result<SupportedSize, SupportedSizeConversionError> {
        SupportedSize::parse(s)
    }
}

} // verus!
