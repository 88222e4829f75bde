use vstd::prelude::*;

verus! {

/// The character modes in which a run of text can be encoded.
#[derive(Clone, Copy, PartialEq, Eq, Structural, Debug)]
pub enum SegmentMode {
    /// Decimal digits, 10 bits for each group of three.
    Numeric,
    /// The 45 characters `0-9`, `A-Z`, space and `$%*+-./:`, 11 bits for each pair.
    Alphanumeric,
    /// The UTF-8 bytes of any character, 8 bits each.
    Byte,
}

/// `c` is an ASCII decimal digit.
pub open spec fn is_digit(c: char) -> bool {
    '0' <= c && c <= '9'
}

/// `c` belongs to the 45-character alphanumeric set.
pub open spec fn is_alnum(c: char) -> bool {
    is_digit(c) || ('A' <= c && c <= 'Z') || c == ' ' || c == '$' || c == '%' || c == '*' || c
        == '+' || c == '-' || c == '.' || c == '/' || c == ':'
}

/// The number of bytes of the UTF-8 encoding of `c`.
pub open spec fn utf8_len(c: char) -> int {
    if (c as u32) < 0x80 {
        1
    } else if (c as u32) < 0x800 {
        2
    } else if (c as u32) < 0x10000 {
        3
    } else {
        4
    }
}

/// The class of a version (1 to 40) that fixes the width of the character count
/// fields: 0 for versions 1 to 9, 1 for 10 to 26, 2 for 27 to 40.
pub open spec fn version_class(v: int) -> int {
    (v + 7) / 17
}

/// Returns whether `c` is an ASCII decimal digit.
pub fn is_numeric(c: char) -> (r: bool)
    ensures
        r == is_digit(c),
{
    '0' <= c && c <= '9'
}

/// Returns whether `c` belongs to the 45-character alphanumeric set.
pub fn is_alphanumeric(c: char) -> (r: bool)
    ensures
        r == is_alnum(c),
{
    ('0' <= c && c <= '9') || ('A' <= c && c <= 'Z') || c == ' ' || c == '$' || c == '%' || c
        == '*' || c == '+' || c == '-' || c == '.' || c == '/' || c == ':'
}

/// Returns the number of bytes of the UTF-8 encoding of `c`.
pub fn char_utf8_len(c: char) -> (r: usize)
    ensures
        r == utf8_len(c),
{
    let u = c as u32;
    if u < 0x80 {
        1
    } else if u < 0x800 {
        2
    } else if u < 0x10000 {
        3
    } else {
        4
    }
}

impl SegmentMode {
    /// `c` can be encoded in this mode.
    pub open spec fn accepts(self, c: char) -> bool {
        match self {
            SegmentMode::Numeric => is_digit(c),
            SegmentMode::Alphanumeric => is_alnum(c),
            SegmentMode::Byte => true,
        }
    }

    /// The four-bit mode indicator.
    pub open spec fn spec_mode_bits(self) -> u8 {
        match self {
            SegmentMode::Numeric => 0x1,
            SegmentMode::Alphanumeric => 0x2,
            SegmentMode::Byte => 0x4,
        }
    }

    /// The width in bits of the character count field in version class `class`.
    pub open spec fn spec_char_count_bits(self, class: int) -> u8 {
        match self {
            SegmentMode::Numeric => if class == 0 {
                10
            } else if class == 1 {
                12
            } else {
                14
            },
            SegmentMode::Alphanumeric => if class == 0 {
                9
            } else if class == 1 {
                11
            } else {
                13
            },
            SegmentMode::Byte => if class == 0 {
                8
            } else {
                16
            },
        }
    }

    /// Two to the power of the character count width: the first count that
    /// the field cannot hold.
    pub open spec fn count_limit(self, class: int) -> int {
        match self {
            SegmentMode::Numeric => if class == 0 {
                1024
            } else if class == 1 {
                4096
            } else {
                16384
            },
            SegmentMode::Alphanumeric => if class == 0 {
                512
            } else if class == 1 {
                2048
            } else {
                8192
            },
            SegmentMode::Byte => if class == 0 {
                256
            } else {
                65536
            },
        }
    }

    /// The cost, in sixths of a bit, of the header that opens a segment of this
    /// mode: the mode indicator and the character count field.
    pub open spec fn head_cost(self, class: int) -> int {
        6 * (4 + self.spec_char_count_bits(class))
    }

    /// The cost, in sixths of a bit, of one more character `c` in a segment of
    /// this mode: 10/3 bits for a digit, 11/2 bits for an alphanumeric
    /// character, 8 bits for each UTF-8 byte.
    pub open spec fn char_cost(self, c: char) -> int {
        match self {
            SegmentMode::Numeric => 20,
            SegmentMode::Alphanumeric => 33,
            SegmentMode::Byte => 48 * utf8_len(c),
        }
    }

    /// Returns whether `c` can be encoded in this mode.
    pub fn can_encode(self, c: char) -> (r: bool)
        ensures
            r == self.accepts(c),
    {
        match self {
            SegmentMode::Numeric => is_numeric(c),
            SegmentMode::Alphanumeric => is_alphanumeric(c),
            SegmentMode::Byte => true,
        }
    }

    /// Returns the four-bit mode indicator.
    #[verifier::when_used_as_spec(spec_mode_bits)]
    pub fn mode_bits(self) -> (r: u8)
        ensures
            r == self.spec_mode_bits(),
    {
        match self {
            SegmentMode::Numeric => 0x1,
            SegmentMode::Alphanumeric => 0x2,
            SegmentMode::Byte => 0x4,
        }
    }

    /// Returns the width in bits of the character count field for version class `class`.
    pub fn char_count_bits(self, class: u8) -> (r: u8)
        requires
            class <= 2,
        ensures
            r == self.spec_char_count_bits(class as int),
    {
        match self {
            SegmentMode::Numeric => if class == 0 {
                10
            } else if class == 1 {
                12
            } else {
                14
            },
            SegmentMode::Alphanumeric => if class == 0 {
                9
            } else if class == 1 {
                11
            } else {
                13
            },
            SegmentMode::Byte => if class == 0 {
                8
            } else {
                16
            },
        }
    }

    /// Returns the cost, in sixths of a bit, of a segment header of this mode.
    pub fn header_cost(self, class: u8) -> (r: u128)
        requires
            class <= 2,
        ensures
            r == self.head_cost(class as int),
            r <= 120,
    {
        6 * (4 + self.char_count_bits(class) as u128)
    }

    /// Returns the cost, in sixths of a bit, of character `c` in a segment of this mode.
    pub fn cost_of_char(self, c: char) -> (r: u128)
        ensures
            r == self.char_cost(c),
            r <= 192,
    {
        match self {
            SegmentMode::Numeric => 20,
            SegmentMode::Alphanumeric => 33,
            SegmentMode::Byte => 48 * char_utf8_len(c) as u128,
        }
    }
}

} // verus!
