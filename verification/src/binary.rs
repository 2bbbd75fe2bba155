//! Debug views of byte slices: fixed-width binary, octal and hexadecimal
//! renderings, for diagnostics.

use vstd::prelude::*;

verus! {

/// Relies on `String::from_utf8`: ASCII bytes decode to exactly the
/// same code points, one character per byte.
#[verifier::external_body]
fn ascii_string(bytes: Vec<u8>) -> (r: String)
    requires
        forall|i: int| 0 <= i < bytes@.len() ==> bytes@[i] < 0x80,
    ensures
        r@ == bytes@.map_values(|b: u8| b as char),
{
    String::from_utf8(bytes).unwrap_or_default()
}

/// The fixed-width renderings a byte can get.
#[derive(Copy, Clone, PartialEq, Eq, Debug, Structural)]
pub enum DigitStyle {
    /// Eight binary digits.
    Binary,
    /// Eight binary digits behind a `0b` prefix.
    PrefixedBinary,
    /// Three octal digits.
    Octal,
    /// Two lower-case hexadecimal digits.
    HexLower,
    /// Two upper-case hexadecimal digits.
    HexUpper,
}

/// The ASCII digit for a value below 16, in lower case.
pub open spec fn spec_hex_lower(v: int) -> u8 {
    if v < 10 {
        (48 + v) as u8
    } else {
        (87 + v) as u8
    }
}

/// The ASCII digit for a value below 16, in upper case.
pub open spec fn spec_hex_upper(v: int) -> u8 {
    if v < 10 {
        (48 + v) as u8
    } else {
        (55 + v) as u8
    }
}

/// A byte as eight binary ASCII digits.
pub open spec fn binary_digits(b: u8) -> Seq<u8> {
    seq![
        (48 + (b as int / 128) % 2) as u8,
        (48 + (b as int / 64) % 2) as u8,
        (48 + (b as int / 32) % 2) as u8,
        (48 + (b as int / 16) % 2) as u8,
        (48 + (b as int / 8) % 2) as u8,
        (48 + (b as int / 4) % 2) as u8,
        (48 + (b as int / 2) % 2) as u8,
        (48 + b as int % 2) as u8,
    ]
}

/// A byte's digits under a given style.
pub open spec fn style_digits(style: DigitStyle, b: u8) -> Seq<u8> {
    match style {
        DigitStyle::Binary => binary_digits(b),
        DigitStyle::PrefixedBinary => seq![48u8, 98u8] + binary_digits(b),
        DigitStyle::Octal => seq![
            (48 + b as int / 64) as u8,
            (48 + (b as int / 8) % 8) as u8,
            (48 + b as int % 8) as u8,
        ],
        DigitStyle::HexLower => seq![spec_hex_lower(b as int / 16), spec_hex_lower(b as int % 16)],
        DigitStyle::HexUpper => seq![spec_hex_upper(b as int / 16), spec_hex_upper(b as int % 16)],
    }
}

/// Each byte rendered under `style`, joined with `sep`.
pub open spec fn rendered(s: Seq<u8>, style: DigitStyle, sep: Seq<u8>) -> Seq<u8>
    decreases s.len(),
{
    if s.len() == 0 {
        Seq::empty()
    } else if s.len() == 1 {
        style_digits(style, s[0])
    } else {
        style_digits(style, s[0]) + sep + rendered(s.drop_first(), style, sep)
    }
}

/// Rendering one more byte extends the rendering by the separator and that
/// byte's digits.
pub proof fn lemma_rendered_snoc(s: Seq<u8>, style: DigitStyle, sep: Seq<u8>, i: int)
    requires
        0 <= i < s.len(),
    ensures
        rendered(s.take(i + 1), style, sep) == if i == 0 {
            style_digits(style, s[0])
        } else {
            rendered(s.take(i), style, sep) + sep + style_digits(style, s[i])
        },
    decreases i,
{
    if i == 0 {
        assert(s.take(1).len() == 1);
        assert(s.take(1)[0] == s[0]);
    } else {
        lemma_rendered_snoc(s.drop_first(), style, sep, i - 1);
        assert(s.take(i + 1).drop_first() =~= s.drop_first().take(i));
        assert(s.take(i + 1)[0] == s[0]);
        assert(s.take(i + 1).len() == i + 1);
        assert(s.drop_first()[i - 1] == s[i]);
        if i == 1 {
            assert(s.drop_first().take(1).len() == 1);
            assert(s.drop_first().take(1)[0] == s[1]);
            assert(rendered(s.drop_first().take(1), style, sep) == style_digits(style, s[1]));
            assert(rendered(s.take(1), style, sep) == style_digits(style, s[0]));
        } else {
            assert((style_digits(style, s[0]) + sep + (rendered(
                s.drop_first().take(i - 1),
                style,
                sep,
            ) + sep + style_digits(style, s[i]))) =~= ((style_digits(style, s[0]) + sep + rendered(
                s.drop_first().take(i - 1),
                style,
                sep,
            )) + sep + style_digits(style, s[i])));
            assert(s.take(i).drop_first() =~= s.drop_first().take(i - 1));
            assert(s.take(i)[0] == s[0]);
            assert(s.take(i).len() == i);
        }
    }
}

/// A view of a byte slice with fixed-width renderings, for diagnostics.
#[derive(Copy, Clone)]
pub struct BytesSlice<'a>(pub &'a [u8]);

/// An iterator over the bytes of a [`BytesSlice`].
pub struct BytesSliceIter<'a> {
    /// The bytes walked over.
    pub slice: &'a [u8],
    /// The next index to yield.
    pub index: usize,
}

impl<'a> BytesSliceIter<'a> {
    /// The next byte, left to right.
    pub fn next(&mut self) -> (r: Option<u8>)
        requires
            old(self).index <= old(self).slice@.len(),
        ensures
            final(self).slice == old(self).slice,
            old(self).index < old(self).slice@.len() ==> r == Some(
                old(self).slice@[old(self).index as int],
            ) && final(self).index == old(self).index + 1,
            old(self).index == old(self).slice@.len() ==> r is None && final(self).index == old(
                self,
            ).index,
    {
        if self.index < self.slice.len() {
            let b = self.slice[self.index];
            self.index = self.index + 1;
            Some(b)
        } else {
            None
        }
    }
}

/// A byte's digits under a given style, as bytes.
fn digits_of(style: DigitStyle, b: u8) -> (r: Vec<u8>)
    ensures
        r@ == style_digits(style, b),
{
    let mut r: Vec<u8> = Vec::new();
    match style {
        DigitStyle::Binary => {
            r.push(48 + (b / 128) % 2);
            r.push(48 + (b / 64) % 2);
            r.push(48 + (b / 32) % 2);
            r.push(48 + (b / 16) % 2);
            r.push(48 + (b / 8) % 2);
            r.push(48 + (b / 4) % 2);
            r.push(48 + (b / 2) % 2);
            r.push(48 + b % 2);
            proof {
                assert(r@ =~= style_digits(style, b));
            }
        },
        DigitStyle::PrefixedBinary => {
            r.push(48);
            r.push(98);
            r.push(48 + (b / 128) % 2);
            r.push(48 + (b / 64) % 2);
            r.push(48 + (b / 32) % 2);
            r.push(48 + (b / 16) % 2);
            r.push(48 + (b / 8) % 2);
            r.push(48 + (b / 4) % 2);
            r.push(48 + (b / 2) % 2);
            r.push(48 + b % 2);
            proof {
                assert(r@ =~= style_digits(style, b));
            }
        },
        DigitStyle::Octal => {
            r.push(48 + b / 64);
            r.push(48 + (b / 8) % 8);
            r.push(48 + b % 8);
            proof {
                assert(r@ =~= style_digits(style, b));
            }
        },
        DigitStyle::HexLower => {
            let hi = b / 16;
            let lo = b % 16;
            r.push(
                if hi < 10 {
                    48 + hi
                } else {
                    87 + hi
                },
            );
            r.push(
                if lo < 10 {
                    48 + lo
                } else {
                    87 + lo
                },
            );
            proof {
                assert(r@ =~= style_digits(style, b));
            }
        },
        DigitStyle::HexUpper => {
            let hi = b / 16;
            let lo = b % 16;
            r.push(
                if hi < 10 {
                    48 + hi
                } else {
                    55 + hi
                },
            );
            r.push(
                if lo < 10 {
                    48 + lo
                } else {
                    55 + lo
                },
            );
            proof {
                assert(r@ =~= style_digits(style, b));
            }
        },
    }
    r
}

/// Every digit any style produces is ASCII.
pub proof fn lemma_style_digits_ascii(style: DigitStyle, b: u8)
    ensures
        forall|i: int|
            0 <= i < style_digits(style, b).len() ==> #[trigger] style_digits(style, b)[i] < 0x80,
{
}

/// Concatenating ASCII byte sequences yields an ASCII byte sequence.
pub proof fn lemma_ascii_concat(a: Seq<u8>, b: Seq<u8>)
    requires
        forall|i: int| 0 <= i < a.len() ==> a[i] < 0x80,
        forall|i: int| 0 <= i < b.len() ==> b[i] < 0x80,
    ensures
        forall|i: int| 0 <= i < (a + b).len() ==> #[trigger] (a + b)[i] < 0x80,
{
    assert forall|i: int| 0 <= i < (a + b).len() implies #[trigger] (a + b)[i] < 0x80 by {
        if i < a.len() {
            assert((a + b)[i] == a[i]);
        } else {
            assert((a + b)[i] == b[i - a.len()]);
        }
    }
}

/// A rendering of ASCII digits joined by an ASCII separator is ASCII.
pub proof fn lemma_rendered_ascii(s: Seq<u8>, style: DigitStyle, sep: Seq<u8>)
    requires
        forall|i: int| 0 <= i < sep.len() ==> sep[i] < 0x80,
    ensures
        forall|i: int|
            0 <= i < rendered(s, style, sep).len() ==> #[trigger] rendered(s, style, sep)[i]
                < 0x80,
    decreases s.len(),
{
    if s.len() == 0 {
    } else if s.len() == 1 {
        lemma_style_digits_ascii(style, s[0]);
    } else {
        lemma_style_digits_ascii(style, s[0]);
        lemma_rendered_ascii(s.drop_first(), style, sep);
        lemma_ascii_concat(style_digits(style, s[0]), sep);
        lemma_ascii_concat(style_digits(style, s[0]) + sep, rendered(s.drop_first(), style, sep));
        assert(rendered(s, style, sep) == (style_digits(style, s[0]) + sep) + rendered(
            s.drop_first(),
            style,
            sep,
        ));
    }
}

impl<'a> BytesSlice<'a> {
    /// An iterator over the bytes, left to right.
    pub fn iter(&self) -> (r: BytesSliceIter<'a>)
        ensures
            r.slice@ == self.0@,
            r.index == 0,
    {
        BytesSliceIter { slice: self.0, index: 0 }
    }

    /// The bytes rendered under `style` and joined with `sep`, appended to
    /// `head`.
    fn render(&self, head: Vec<u8>, style: DigitStyle, sep: &Vec<u8>) -> (r: Vec<u8>)
        ensures
            r@ == head@ + rendered(self.0@, style, sep@),
    {
        let mut out = head;
        let ghost head_view = out@;
        let n = self.0.len();
        let mut i: usize = 0;
        proof {
            assert(head_view + rendered(self.0@.take(0int), style, sep@) =~= head_view);
        }
        while i < n
            invariant
                n == self.0@.len(),
                i <= n,
                out@ == head_view + rendered(self.0@.take(i as int), style, sep@),
            decreases n - i,
        {
            if i > 0 {
                let mut j: usize = 0;
                let m = sep.len();
                let ghost mid = out@;
                proof {
                    assert(mid + sep@.take(0int) =~= mid);
                }
                while j < m
                    invariant
                        j <= m,
                        m == sep@.len(),
                        out@ == mid + sep@.take(j as int),
                    decreases m - j,
                {
                    let b = sep[j];
                    out.push(b);
                    proof {
                        assert(mid + sep@.take(j + 1) =~= (mid + sep@.take(j as int)).push(
                            sep@[j as int],
                        ));
                    }
                    j = j + 1;
                }
                proof {
                    assert(sep@.take(m as int) =~= sep@);
                }
            }
            let digits = digits_of(style, self.0[i]);
            let mut j: usize = 0;
            let m = digits.len();
            let ghost mid = out@;
            proof {
                assert(mid + digits@.take(0int) =~= mid);
            }
            while j < m
                invariant
                    j <= m,
                    m == digits@.len(),
                    out@ == mid + digits@.take(j as int),
                decreases m - j,
            {
                let b = digits[j];
                out.push(b);
                proof {
                    assert(mid + digits@.take(j + 1) =~= (mid + digits@.take(j as int)).push(
                        digits@[j as int],
                    ));
                }
                j = j + 1;
            }
            proof {
                assert(digits@.take(m as int) =~= digits@);
                lemma_rendered_snoc(self.0@, style, sep@, i as int);
                if i == 0 {
                    assert(out@ =~= head_view + rendered(self.0@.take(1int), style, sep@));
                } else {
                    assert(out@ =~= head_view + rendered(self.0@.take(i + 1), style, sep@));
                }
            }
            i = i + 1;
        }
        proof {
            assert(self.0@.take(n as int) =~= self.0@);
        }
        out
    }

    /// The bytes as bracketed two-digit lower-case hexadecimal items:
    /// `[2a, 0d, 25]`.
    pub fn display_string(&self) -> (r: String)
        ensures
            r@ == (seq![91u8] + rendered(self.0@, DigitStyle::HexLower, seq![44u8, 32u8]) + seq![
                93u8,
            ]).map_values(|b: u8| b as char),
    {
        let mut head: Vec<u8> = Vec::new();
        head.push(91);
        let mut sep: Vec<u8> = Vec::new();
        sep.push(44);
        sep.push(32);
        let mut out = self.render(head, DigitStyle::HexLower, &sep);
        out.push(93);
        proof {
            assert(seq![91u8] =~= Seq::<u8>::empty().push(91u8));
            assert(seq![44u8, 32u8] =~= Seq::<u8>::empty().push(44u8).push(32u8));
            lemma_rendered_ascii(self.0@, DigitStyle::HexLower, seq![44u8, 32u8]);
            lemma_ascii_concat(seq![91u8], rendered(self.0@, DigitStyle::HexLower, seq![
                44u8,
                32u8,
            ]));
            lemma_ascii_concat(seq![91u8] + rendered(self.0@, DigitStyle::HexLower, seq![
                44u8,
                32u8,
            ]), seq![93u8]);
            assert(out@ =~= seq![91u8] + rendered(self.0@, DigitStyle::HexLower, seq![
                44u8,
                32u8,
            ]) + seq![93u8]);
        }
        ascii_string(out)
    }

    /// The bytes as bracketed eight-digit binary items; the alternate form
    /// prefixes each item with `0b`.
    pub fn debug_string(&self, alternate: bool) -> (r: String)
        ensures
            r@ == (seq![91u8] + rendered(
                self.0@,
                if alternate {
                    DigitStyle::PrefixedBinary
                } else {
                    DigitStyle::Binary
                },
                seq![44u8, 32u8],
            ) + seq![93u8]).map_values(|b: u8| b as char),
    {
        let style = if alternate {
            DigitStyle::PrefixedBinary
        } else {
            DigitStyle::Binary
        };
        let mut head: Vec<u8> = Vec::new();
        head.push(91);
        let mut sep: Vec<u8> = Vec::new();
        sep.push(44);
        sep.push(32);
        let mut out = self.render(head, style, &sep);
        out.push(93);
        proof {
            assert(seq![91u8] =~= Seq::<u8>::empty().push(91u8));
            assert(seq![44u8, 32u8] =~= Seq::<u8>::empty().push(44u8).push(32u8));
            lemma_rendered_ascii(self.0@, style, seq![44u8, 32u8]);
            lemma_ascii_concat(seq![91u8], rendered(self.0@, style, seq![44u8, 32u8]));
            lemma_ascii_concat(
                seq![91u8] + rendered(self.0@, style, seq![44u8, 32u8]),
                seq![93u8],
            );
            assert(out@ =~= seq![91u8] + rendered(self.0@, style, seq![44u8, 32u8]) + seq![93u8]);
        }
        ascii_string(out)
    }

    /// The bytes as space-separated items under `style`; when `prefix` is
    /// given it is written first.
    fn affixed_string(&self, style: DigitStyle, prefix: Option<(u8, u8)>) -> (r: String)
        requires
            prefix matches Some((a, b)) ==> a < 0x80 && b < 0x80,
        ensures
            r@ == ((match prefix {
                Some((a, b)) => seq![a, b, 32u8],
                None => Seq::<u8>::empty(),
            }) + rendered(self.0@, style, seq![32u8])).map_values(|b: u8| b as char),
    {
        let mut head: Vec<u8> = Vec::new();
        let ghost head_spec = match prefix {
            Some((a, b)) => seq![a, b, 32u8],
            None => Seq::<u8>::empty(),
        };
        match prefix {
            Some((a, b)) => {
                head.push(a);
                head.push(b);
                head.push(32);
            },
            None => {
            },
        }
        proof {
            assert(head@ =~= head_spec);
        }
        let mut sep: Vec<u8> = Vec::new();
        sep.push(32);
        let out = self.render(head, style, &sep);
        proof {
            assert(seq![32u8] =~= Seq::<u8>::empty().push(32u8));
            lemma_rendered_ascii(self.0@, style, seq![32u8]);
            lemma_ascii_concat(head_spec, rendered(self.0@, style, seq![32u8]));
        }
        ascii_string(out)
    }

    /// The bytes as space-separated two-digit lower-case hexadecimal items;
    /// the alternate form starts with `0x `.
    pub fn lower_hex_string(&self, alternate: bool) -> (r: String)
        ensures
            r@ == ((if alternate {
                seq![48u8, 120u8, 32u8]
            } else {
                Seq::<u8>::empty()
            }) + rendered(self.0@, DigitStyle::HexLower, seq![32u8])).map_values(
                |b: u8| b as char,
            ),
    {
        if alternate {
            self.affixed_string(DigitStyle::HexLower, Some((48, 120)))
        } else {
            self.affixed_string(DigitStyle::HexLower, None)
        }
    }

    /// The bytes as space-separated two-digit upper-case hexadecimal items;
    /// the alternate form starts with `0x `.
    pub fn upper_hex_string(&self, alternate: bool) -> (r: String)
        ensures
            r@ == ((if alternate {
                seq![48u8, 120u8, 32u8]
            } else {
                Seq::<u8>::empty()
            }) + rendered(self.0@, DigitStyle::HexUpper, seq![32u8])).map_values(
                |b: u8| b as char,
            ),
    {
        if alternate {
            self.affixed_string(DigitStyle::HexUpper, Some((48, 120)))
        } else {
            self.affixed_string(DigitStyle::HexUpper, None)
        }
    }

    /// The bytes as space-separated three-digit octal items; the alternate
    /// form starts with `0o `.
    pub fn octal_string(&self, alternate: bool) -> (r: String)
        ensures
            r@ == ((if alternate {
                seq![48u8, 111u8, 32u8]
            } else {
                Seq::<u8>::empty()
            }) + rendered(self.0@, DigitStyle::Octal, seq![32u8])).map_values(|b: u8| b as char),
    {
        if alternate {
            self.affixed_string(DigitStyle::Octal, Some((48, 111)))
        } else {
            self.affixed_string(DigitStyle::Octal, None)
        }
    }

    /// The bytes as space-separated eight-digit binary items; the alternate
    /// form starts with `0b `.
    pub fn binary_string(&self, alternate: bool) -> (r: String)
        ensures
            r@ == ((if alternate {
                seq![48u8, 98u8, 32u8]
            } else {
                Seq::<u8>::empty()
            }) + rendered(self.0@, DigitStyle::Binary, seq![32u8])).map_values(|b: u8| b as char),
    {
        if alternate {
            self.affixed_string(DigitStyle::Binary, Some((48, 98)))
        } else {
            self.affixed_string(DigitStyle::Binary, None)
        }
    }
}

} // verus!
