//! Parsing, validation, conversion and classification of GTIN trade-item
//! identifiers (UPC-A, UPC-E, EAN-8, EAN-13, GTIN-14).
//!
//! A [`GTIN`] value holds the digits of one code, check digit included; it is
//! built through the parsing entry points or from pre-validated digit arrays,
//! and never changes afterwards. Free-form text is turned into a value by
//! extracting its decimal digits, checking the GS1 mod-10 checksum, and
//! picking the format from the digit count and the leading digit.

use vstd::prelude::*;

pub mod util;

use util::digits_in_range;
use util::extracted_digits;
use util::upca_expansion;
use util::valid_gtin_spec;

verus! {

/// One GTIN code: the format tag together with its full digit sequence,
/// check digit included.
#[derive(Clone, Copy, Debug)]
pub enum GTIN {
    /// Compressed 8-digit UPC-E code.
    UpcE([u8; 8]),
    /// 12-digit UPC-A code.
    UpcA([u8; 12]),
    /// 8-digit EAN-8 code.
    Ean8([u8; 8]),
    /// 13-digit EAN-13 code.
    Ean13([u8; 13]),
    /// 14-digit GTIN-14 code, used at shipping and case level.
    Gtin14([u8; 14]),
}

/// Why a piece of text or a digit sequence was not accepted.
#[derive(Clone, Copy, Debug, PartialEq, Eq, Structural)]
pub enum GtinError {
    /// The extracted digit count fits no supported format; carries the count.
    InvalidLength(usize),
    /// The digit count fits, but the last digit fails the mod-10 check.
    InvalidChecksum,
    /// A UPC-E core of unsupported length was handed to the expansion.
    ConversionFailed,
}

impl GTIN {
    /// The digit sequence of the code, check digit included.
    pub open spec fn spec_digits(self) -> Seq<u8> {
        match self {
            GTIN::UpcE(d) => d@,
            GTIN::UpcA(d) => d@,
            GTIN::Ean8(d) => d@,
            GTIN::Ean13(d) => d@,
            GTIN::Gtin14(d) => d@,
        }
    }

    /// A well-formed value holds single decimal digits whose last one closes
    /// the code under the GS1 mod-10 checksum.
    pub open spec fn wf(self) -> bool {
        &&& digits_in_range(self.spec_digits())
        &&& valid_gtin_spec(self.spec_digits())
    }

    /// The digits of the code, in order, check digit included.
    pub fn digits(&self) -> (r: &[u8])
        ensures
            r@ == self.spec_digits(),
    {
        match self {
            GTIN::UpcE(d) => d.as_slice(),
            GTIN::UpcA(d) => d.as_slice(),
            GTIN::Ean8(d) => d.as_slice(),
            GTIN::Ean13(d) => d.as_slice(),
            GTIN::Gtin14(d) => d.as_slice(),
        }
    }
}

/// Classification of a code's purpose, derived from its GS1 prefix; never
/// stored, always recomputed.
#[derive(Clone, Copy, Debug, PartialEq, Eq, Structural)]
pub enum NumberSystem {
    /// Ordinary retail item.
    General,
    /// Reserved for use within a store or warehouse.
    StoreUse,
    /// Coupon.
    Coupon,
    /// Drug or supplement (the US national drug code range).
    Drug,
    /// Serial publication (ISSN).
    Issn,
    /// Book (ISBN).
    Isbn,
    /// Refund receipt.
    Refund,
    /// No prefix could be derived.
    Unknown,
}

/// Numeric value of a 3-digit GS1 prefix.
pub open spec fn prefix_number(p: Seq<u8>) -> int
    recommends
        p.len() == 3,
{
    p[0] * 100 + p[1] * 10 + p[2]
}

/// The number-system category that a numeric GS1 prefix value falls in.
pub open spec fn number_system_of(n: int) -> NumberSystem {
    if 20 <= n <= 29 || 40 <= n <= 49 || 200 <= n <= 299 {
        NumberSystem::StoreUse
    } else if 30 <= n <= 39 {
        NumberSystem::Drug
    } else if 50 <= n <= 59 || 981 <= n <= 984 || 990 <= n <= 999 {
        NumberSystem::Coupon
    } else if n == 977 {
        NumberSystem::Issn
    } else if 978 <= n <= 979 {
        NumberSystem::Isbn
    } else if n == 980 {
        NumberSystem::Refund
    } else {
        NumberSystem::General
    }
}

impl NumberSystem {
    /// The category of a 3-digit GS1 prefix; anything that is not exactly
    /// three digits long has no category.
    pub fn from_ean13_prefix(prefix: &[u8]) -> (r: NumberSystem)
        ensures
            prefix@.len() == 3 ==> r == number_system_of(prefix_number(prefix@)),
            prefix@.len() != 3 ==> r == NumberSystem::Unknown,
    {
        if prefix.len() != 3 {
            return NumberSystem::Unknown;
        }
        let number: usize = (prefix[0] as usize) * 100 + (prefix[1] as usize) * 10 + (
        prefix[2] as usize);
        if (20 <= number && number <= 29) || (40 <= number && number <= 49) || (200 <= number
            && number <= 299) {
            NumberSystem::StoreUse
        } else if 30 <= number && number <= 39 {
            NumberSystem::Drug
        } else if (50 <= number && number <= 59) || (981 <= number && number <= 984) || (990
            <= number && number <= 999) {
            NumberSystem::Coupon
        } else if number == 977 {
            NumberSystem::Issn
        } else if 978 <= number && number <= 979 {
            NumberSystem::Isbn
        } else if number == 980 {
            NumberSystem::Refund
        } else {
            NumberSystem::General
        }
    }
}

impl GTIN {
    /// The 3-digit GS1 prefix of the code, where one can be derived: the
    /// first three digits of an EAN code, a zero followed by the first two
    /// digits of a UPC-A, the same after expansion for a UPC-E, and the
    /// three digits behind the leading indicator digit for a GTIN-14.
    pub open spec fn spec_gs1_prefix(self) -> Option<Seq<u8>> {
        match self {
            GTIN::Ean13(d) => Some(d@.subrange(0, 3)),
            GTIN::Ean8(d) => Some(d@.subrange(0, 3)),
            GTIN::UpcA(d) => Some(seq![0u8, d@[0], d@[1]]),
            GTIN::UpcE(d) => Some(seq![0u8, upca_expansion(d@)[0], upca_expansion(d@)[1]]),
            GTIN::Gtin14(d) => Some(d@.subrange(1, 4)),
        }
    }

    /// The number-system category of the code's GS1 prefix.
    pub open spec fn spec_number_system(self) -> NumberSystem {
        match self.spec_gs1_prefix() {
            Some(p) => number_system_of(prefix_number(p)),
            None => NumberSystem::Unknown,
        }
    }

    /// Derives the 3-digit GS1 prefix of the code; a UPC-E is expanded to
    /// its UPC-A form first.
    pub fn gs1_prefix(&self) -> (r: Option<[u8; 3]>)
        ensures
            self.spec_gs1_prefix() matches Some(p) ==> (r matches Some(q) && q@ == p),
            self.spec_gs1_prefix() is None ==> r is None,
    {
        match self {
            GTIN::Ean13(d) => {
                let p: [u8; 3] = [d[0], d[1], d[2]];
                proof {
                    assert(p@ =~= d@.subrange(0, 3));
                }
                Some(p)
            },
            GTIN::Ean8(d) => {
                let p: [u8; 3] = [d[0], d[1], d[2]];
                proof {
                    assert(p@ =~= d@.subrange(0, 3));
                }
                Some(p)
            },
            GTIN::UpcA(d) => {
                let p: [u8; 3] = [0, d[0], d[1]];
                proof {
                    assert(p@ =~= seq![0u8, d@[0], d@[1]]);
                }
                Some(p)
            },
            GTIN::UpcE(d) => match util::expand_upce_to_upca(d.as_slice()) {
                Ok(expanded) => {
                    let e = expanded.digits();
                    let p: [u8; 3] = [0, e[0], e[1]];
                    proof {
                        assert(p@ =~= seq![
                            0u8,
                            upca_expansion(d@)[0],
                            upca_expansion(d@)[1],
                        ]);
                    }
                    Some(p)
                },
                Err(_) => None,
            },
            GTIN::Gtin14(d) => {
                let p: [u8; 3] = [d[1], d[2], d[3]];
                proof {
                    assert(p@ =~= d@.subrange(1, 4));
                }
                Some(p)
            },
        }
    }

    /// The number-system category of the code.
    pub fn number_system(&self) -> (r: NumberSystem)
        ensures
            r == self.spec_number_system(),
    {
        match self.gs1_prefix() {
            Some(p) => NumberSystem::from_ean13_prefix(p.as_slice()),
            None => NumberSystem::Unknown,
        }
    }

    /// The digit sequence of the EAN-13 representation of the code, where
    /// one exists: an EAN-13 keeps its digits, a UPC-A is padded with one
    /// leading zero, a UPC-E is expanded to its UPC-A form first. An EAN-8
    /// or GTIN-14 has no loss-free EAN-13 form.
    pub open spec fn spec_as_ean13_digits(self) -> Option<Seq<u8>> {
        match self {
            GTIN::Ean13(d) => Some(d@),
            GTIN::UpcA(d) => Some(seq![0u8] + d@),
            GTIN::UpcE(d) => Some(seq![0u8] + upca_expansion(d@)),
            _ => None,
        }
    }

    /// The EAN-13 form of the code, where one exists.
    pub fn as_ean13(self) -> (r: Option<GTIN>)
        ensures
            self.spec_as_ean13_digits() matches Some(s) ==> (r matches Some(e) && e is Ean13
                && e.spec_digits() == s),
            self.spec_as_ean13_digits() is None ==> r is None,
            self.wf() ==> (r matches Some(e) ==> e.wf()),
    {
        match self {
            GTIN::Ean13(_) => Some(self),
            GTIN::UpcA(d) => {
                let e: [u8; 13] = [
                    0,
                    d[0],
                    d[1],
                    d[2],
                    d[3],
                    d[4],
                    d[5],
                    d[6],
                    d[7],
                    d[8],
                    d[9],
                    d[10],
                    d[11],
                ];
                proof {
                    assert(e@ =~= seq![0u8] + d@);
                    assert(e@.drop_last() =~= seq![0u8] + d@.drop_last());
                    util::lemma_weighted_sum_prepend_zero(d@.drop_last());
                }
                Some(GTIN::Ean13(e))
            },
            GTIN::UpcE(d) => match util::expand_upce_to_upca(d.as_slice()) {
                Ok(expanded) => match expanded {
                    GTIN::UpcA(x) => {
                        let e: [u8; 13] = [
                            0,
                            x[0],
                            x[1],
                            x[2],
                            x[3],
                            x[4],
                            x[5],
                            x[6],
                            x[7],
                            x[8],
                            x[9],
                            x[10],
                            x[11],
                        ];
                        proof {
                            assert(e@ =~= seq![0u8] + x@);
                            assert(e@.drop_last() =~= seq![0u8] + x@.drop_last());
                            util::lemma_weighted_sum_prepend_zero(x@.drop_last());
                        }
                        Some(GTIN::Ean13(e))
                    },
                    _ => None,
                },
                Err(_) => None,
            },
            _ => None,
        }
    }

    /// The country that the code's GS1 prefix is registered to, as an ISO
    /// 3166 alpha-2 code: the drug range always reads as a United States
    /// registration, the store-use, coupon, ISBN, ISSN and refund ranges
    /// name no country, and every other prefix is looked up in the GS1
    /// country range table.
    pub open spec fn spec_country_code(self) -> Option<&'static str> {
        match self.spec_number_system() {
            NumberSystem::Drug => Some("US"),
            NumberSystem::StoreUse
            | NumberSystem::Coupon
            | NumberSystem::Isbn
            | NumberSystem::Issn
            | NumberSystem::Refund => None,
            _ => match self.spec_gs1_prefix() {
                Some(p) => country_of_prefix(prefix_number(p)),
                None => None,
            },
        }
    }

    /// The country the code is registered in, where the prefix names one.
    pub fn country_code(&self) -> (r: Option<&'static str>)
        ensures
            r == self.spec_country_code(),
    {
        match self.number_system() {
            NumberSystem::Drug => Some("US"),
            NumberSystem::StoreUse
            | NumberSystem::Coupon
            | NumberSystem::Isbn
            | NumberSystem::Issn
            | NumberSystem::Refund => None,
            _ => match self.gs1_prefix() {
                Some(p) => {
                    let n: u32 = (p[0] as u32) * 100 + (p[1] as u32) * 10 + (p[2] as u32);
                    country_lookup(n)
                },
                None => None,
            },
        }
    }
}

/// The digit counts that the format decision table accepts.
pub open spec fn classifiable_len(n: int) -> bool {
    n == 8 || n == 11 || n == 12 || n == 13 || n == 14
}

/// Which value the format decision table assigns to an extracted digit
/// sequence. The 8-digit row is ambiguous between UPC-E and EAN-8; the
/// convention here reads a leading zero as EAN-8 and anything else as
/// UPC-E, and [`GTIN::parse_as_ean8`] and [`GTIN::parse_as_upce`] override
/// it. An 11-digit sequence is taken for a UPC-A whose leading zero was
/// stripped and gets it back; a 13-digit sequence with a leading zero is
/// folded to the UPC-A it pads.
pub open spec fn classified_as(ds: Seq<u8>, g: GTIN) -> bool {
    if ds.len() == 8 {
        if ds[0] == 0 {
            g is Ean8 && g.spec_digits() == ds
        } else {
            g is UpcE && g.spec_digits() == ds
        }
    } else if ds.len() == 11 {
        g is UpcA && g.spec_digits() == seq![0u8] + ds
    } else if ds.len() == 12 {
        g is UpcA && g.spec_digits() == ds
    } else if ds.len() == 13 {
        if ds[0] == 0 {
            g is UpcA && g.spec_digits() == ds.subrange(1, 13)
        } else {
            g is Ean13 && g.spec_digits() == ds
        }
    } else if ds.len() == 14 {
        g is Gtin14 && g.spec_digits() == ds
    } else {
        false
    }
}

impl GTIN {
    /// Reads a GTIN out of free-form text: extracts the decimal digits,
    /// checks the GS1 mod-10 checksum, and picks the format from the digit
    /// count and the leading digit. A digit count that fits no format is an
    /// `InvalidLength` error; a fitting count whose last digit fails the
    /// checksum is an `InvalidChecksum` error.
    pub fn parse(text: &str) -> (r: Result<GTIN, GtinError>)
        ensures
            ({
                let ds = extracted_digits(text@);
                &&& (r matches Ok(g) ==> g.wf() && classified_as(ds, g))
                &&& (r is Ok <==> valid_gtin_spec(ds) && classifiable_len(ds.len() as int))
                &&& ((r matches Err(e) && e is InvalidChecksum) <==> (8 <= ds.len() <= 14
                    && !valid_gtin_spec(ds)))
                &&& ((r matches Err(e) && e is InvalidLength) <==> (ds.len() < 8 || ds.len() > 14
                    || (valid_gtin_spec(ds) && !classifiable_len(ds.len() as int))))
                &&& (r matches Err(e) ==> (e matches GtinError::InvalidLength(n) ==> n
                    == ds.len()))
            }),
    {
        let digits = util::extract_digits(text);
        let n = digits.len();
        if !util::validate_gtin(digits.as_slice()) {
            if n < 8 || n > 14 {
                return Err(GtinError::InvalidLength(n));
            }
            return Err(GtinError::InvalidChecksum);
        }
        if n == 8 {
            let d: [u8; 8] = [
                digits[0],
                digits[1],
                digits[2],
                digits[3],
                digits[4],
                digits[5],
                digits[6],
                digits[7],
            ];
            proof {
                assert(d@ =~= digits@);
            }
            if digits[0] == 0 {
                Ok(GTIN::Ean8(d))
            } else {
                Ok(GTIN::UpcE(d))
            }
        } else if n == 11 {
            let d: [u8; 12] = [
                0,
                digits[0],
                digits[1],
                digits[2],
                digits[3],
                digits[4],
                digits[5],
                digits[6],
                digits[7],
                digits[8],
                digits[9],
                digits[10],
            ];
            proof {
                assert(d@ =~= seq![0u8] + digits@);
                assert(d@.drop_last() =~= seq![0u8] + digits@.drop_last());
                util::lemma_weighted_sum_prepend_zero(digits@.drop_last());
            }
            Ok(GTIN::UpcA(d))
        } else if n == 12 {
            let d: [u8; 12] = [
                digits[0],
                digits[1],
                digits[2],
                digits[3],
                digits[4],
                digits[5],
                digits[6],
                digits[7],
                digits[8],
                digits[9],
                digits[10],
                digits[11],
            ];
            proof {
                assert(d@ =~= digits@);
            }
            Ok(GTIN::UpcA(d))
        } else if n == 13 {
            if digits[0] == 0 {
                let d: [u8; 12] = [
                    digits[1],
                    digits[2],
                    digits[3],
                    digits[4],
                    digits[5],
                    digits[6],
                    digits[7],
                    digits[8],
                    digits[9],
                    digits[10],
                    digits[11],
                    digits[12],
                ];
                proof {
                    assert(d@ =~= digits@.subrange(1, 13));
                    assert(digits@ =~= seq![0u8] + d@);
                    assert(digits@.drop_last() =~= seq![0u8] + d@.drop_last());
                    util::lemma_weighted_sum_prepend_zero(d@.drop_last());
                }
                Ok(GTIN::UpcA(d))
            } else {
                let d: [u8; 13] = [
                    digits[0],
                    digits[1],
                    digits[2],
                    digits[3],
                    digits[4],
                    digits[5],
                    digits[6],
                    digits[7],
                    digits[8],
                    digits[9],
                    digits[10],
                    digits[11],
                    digits[12],
                ];
                proof {
                    assert(d@ =~= digits@);
                }
                Ok(GTIN::Ean13(d))
            }
        } else if n == 14 {
            let d: [u8; 14] = [
                digits[0],
                digits[1],
                digits[2],
                digits[3],
                digits[4],
                digits[5],
                digits[6],
                digits[7],
                digits[8],
                digits[9],
                digits[10],
                digits[11],
                digits[12],
                digits[13],
            ];
            proof {
                assert(d@ =~= digits@);
            }
            Ok(GTIN::Gtin14(d))
        } else {
            // A 9- or 10-digit sequence can carry a sound checksum, but no
            // format has that digit count.
            Err(GtinError::InvalidLength(n))
        }
    }

    /// Reads an EAN-8 out of free-form text, bypassing the 8-digit
    /// leading-digit convention: exactly eight digits with a sound checksum
    /// are accepted, whatever the leading digit.
    pub fn parse_as_ean8(text: &str) -> (r: Result<GTIN, GtinError>)
        ensures
            ({
                let ds = extracted_digits(text@);
                &&& (r matches Ok(g) ==> g is Ean8 && g.spec_digits() == ds && g.wf())
                &&& (r is Ok <==> ds.len() == 8 && valid_gtin_spec(ds))
                &&& ((r matches Err(e) && e is InvalidLength) <==> ds.len() != 8)
                &&& ((r matches Err(e) && e is InvalidChecksum) <==> (ds.len() == 8
                    && !valid_gtin_spec(ds)))
                &&& (r matches Err(e) ==> (e matches GtinError::InvalidLength(n) ==> n
                    == ds.len()))
            }),
    {
        match Self::parse_eight_digits(text) {
            Ok(d) => Ok(GTIN::Ean8(d)),
            Err(e) => Err(e),
        }
    }

    /// Reads a UPC-E out of free-form text, bypassing the 8-digit
    /// leading-digit convention: exactly eight digits with a sound checksum
    /// are accepted, whatever the leading digit.
    pub fn parse_as_upce(text: &str) -> (r: Result<GTIN, GtinError>)
        ensures
            ({
                let ds = extracted_digits(text@);
                &&& (r matches Ok(g) ==> g is UpcE && g.spec_digits() == ds && g.wf())
                &&& (r is Ok <==> ds.len() == 8 && valid_gtin_spec(ds))
                &&& ((r matches Err(e) && e is InvalidLength) <==> ds.len() != 8)
                &&& ((r matches Err(e) && e is InvalidChecksum) <==> (ds.len() == 8
                    && !valid_gtin_spec(ds)))
                &&& (r matches Err(e) ==> (e matches GtinError::InvalidLength(n) ==> n
                    == ds.len()))
            }),
    {
        match Self::parse_eight_digits(text) {
            Ok(d) => Ok(GTIN::UpcE(d)),
            Err(e) => Err(e),
        }
    }

    fn parse_eight_digits(text: &str) -> (r: Result<[u8; 8], GtinError>)
        ensures
            ({
                let ds = extracted_digits(text@);
                &&& (r matches Ok(d) ==> d@ == ds && valid_gtin_spec(ds) && digits_in_range(
                    ds,
                ))
                &&& (r is Ok <==> ds.len() == 8 && valid_gtin_spec(ds))
                &&& ((r matches Err(e) && e is InvalidLength) <==> ds.len() != 8)
                &&& ((r matches Err(e) && e is InvalidChecksum) <==> (ds.len() == 8
                    && !valid_gtin_spec(ds)))
                &&& (r matches Err(e) ==> (e matches GtinError::InvalidLength(n) ==> n
                    == ds.len()))
            }),
    {
        let digits = util::extract_digits(text);
        let n = digits.len();
        if n != 8 {
            return Err(GtinError::InvalidLength(n));
        }
        if !util::validate_gtin(digits.as_slice()) {
            return Err(GtinError::InvalidChecksum);
        }
        let d: [u8; 8] = [
            digits[0],
            digits[1],
            digits[2],
            digits[3],
            digits[4],
            digits[5],
            digits[6],
            digits[7],
        ];
        proof {
            assert(d@ =~= digits@);
        }
        Ok(d)
    }
}

/// Round trip: the canonical digit string of a well-formed value parses
/// back to that value and to no other. Folded representations are left
/// out: a 13-digit string with a leading zero reads as the UPC-A it pads,
/// never as an EAN-13, and an 8-digit string follows the leading-digit
/// convention, so a UPC-E with a leading zero and an EAN-8 without one
/// classify as each other's format.
pub proof fn lemma_parse_round_trip(g: GTIN)
    requires
        g.wf(),
        g is UpcE ==> g.spec_digits()[0] != 0,
        g is Ean8 ==> g.spec_digits()[0] == 0,
        g is Ean13 ==> g.spec_digits()[0] != 0,
    ensures
        extracted_digits(util::digit_string(g.spec_digits())) == g.spec_digits(),
        valid_gtin_spec(g.spec_digits()),
        classifiable_len(g.spec_digits().len() as int),
        classified_as(g.spec_digits(), g),
        forall|h: GTIN| classified_as(g.spec_digits(), h) ==> h == g,
{
    broadcast use vstd::array::group_array_axioms;

    util::lemma_extract_digit_string(g.spec_digits());
    let ds = g.spec_digits();
    assert forall|h: GTIN| classified_as(ds, h) implies h == g by {
        match g {
            GTIN::UpcE(a) => {
                let b = h->UpcE_0;
                assert(a =~= b);
            },
            GTIN::UpcA(a) => {
                let b = h->UpcA_0;
                assert(a =~= b);
            },
            GTIN::Ean8(a) => {
                let b = h->Ean8_0;
                assert(a =~= b);
            },
            GTIN::Ean13(a) => {
                let b = h->Ean13_0;
                assert(a =~= b);
            },
            GTIN::Gtin14(a) => {
                let b = h->Gtin14_0;
                assert(a =~= b);
            },
        }
    }
}

/// The GS1 country range table: which country a numeric prefix value is
/// delegated to, for the values not already claimed by a special number
/// system.
pub open spec fn country_of_prefix(n: int) -> Option<&'static str> {
    if 0 <= n <= 139 {
        Some("US")
    } else if 300 <= n <= 379 {
        Some("FR")
    } else if n == 380 {
        Some("BG")
    } else if n == 383 {
        Some("SI")
    } else if n == 385 {
        Some("HR")
    } else if n == 387 {
        Some("BA")
    } else if n == 389 {
        Some("ME")
    } else if n == 390 {
        Some("KOSOVO")
    } else if 400 <= n <= 440 {
        Some("DE")
    } else if 450 <= n <= 459 || 490 <= n <= 499 {
        Some("JP")
    } else if 460 <= n <= 469 {
        Some("RU")
    } else if n == 470 {
        Some("KG")
    } else if n == 471 {
        Some("TW")
    } else if n == 474 {
        Some("EE")
    } else if 500 <= n <= 509 {
        Some("GB")
    } else if 520 <= n <= 521 {
        Some("GR")
    } else if n == 539 {
        Some("IE")
    } else if 540 <= n <= 549 {
        Some("BE")
    } else if 570 <= n <= 579 {
        Some("DK")
    } else if n == 590 {
        Some("PL")
    } else if n == 599 {
        Some("HU")
    } else if n == 618 {
        Some("CI")
    } else if n == 619 {
        Some("TN")
    } else if 640 <= n <= 649 {
        Some("FI")
    } else if 700 <= n <= 709 {
        Some("NO")
    } else if 730 <= n <= 739 {
        Some("SE")
    } else if n == 742 {
        Some("HN")
    } else if n == 750 {
        Some("MX")
    } else if 754 <= n <= 755 {
        Some("CA")
    } else if n == 759 {
        Some("VE")
    } else if 760 <= n <= 769 {
        Some("CH")
    } else if n == 773 {
        Some("UY")
    } else if 789 <= n <= 790 {
        Some("BR")
    } else if 800 <= n <= 839 {
        Some("IT")
    } else if 840 <= n <= 849 {
        Some("ES")
    } else if n == 858 {
        Some("SK")
    } else if n == 859 {
        Some("CZ")
    } else if n == 860 {
        Some("RS")
    } else if 870 <= n <= 879 {
        Some("NL")
    } else if n == 885 {
        Some("TH")
    } else if n == 888 {
        Some("SG")
    } else if 900 <= n <= 919 {
        Some("AT")
    } else if 930 <= n <= 939 {
        Some("AU")
    } else if 940 <= n <= 949 {
        Some("NZ")
    } else {
        None
    }
}

fn country_lookup(n: u32) -> (r: Option<&'static str>)
    ensures
        r == country_of_prefix(n as int),
{
    if n <= 139 {
        Some("US")
    } else if 300 <= n && n <= 379 {
        Some("FR")
    } else if n == 380 {
        Some("BG")
    } else if n == 383 {
        Some("SI")
    } else if n == 385 {
        Some("HR")
    } else if n == 387 {
        Some("BA")
    } else if n == 389 {
        Some("ME")
    } else if n == 390 {
        Some("KOSOVO")
    } else if 400 <= n && n <= 440 {
        Some("DE")
    } else if (450 <= n && n <= 459) || (490 <= n && n <= 499) {
        Some("JP")
    } else if 460 <= n && n <= 469 {
        Some("RU")
    } else if n == 470 {
        Some("KG")
    } else if n == 471 {
        Some("TW")
    } else if n == 474 {
        Some("EE")
    } else if 500 <= n && n <= 509 {
        Some("GB")
    } else if 520 <= n && n <= 521 {
        Some("GR")
    } else if n == 539 {
        Some("IE")
    } else if 540 <= n && n <= 549 {
        Some("BE")
    } else if 570 <= n && n <= 579 {
        Some("DK")
    } else if n == 590 {
        Some("PL")
    } else if n == 599 {
        Some("HU")
    } else if n == 618 {
        Some("CI")
    } else if n == 619 {
        Some("TN")
    } else if 640 <= n && n <= 649 {
        Some("FI")
    } else if 700 <= n && n <= 709 {
        Some("NO")
    } else if 730 <= n && n <= 739 {
        Some("SE")
    } else if n == 742 {
        Some("HN")
    } else if n == 750 {
        Some("MX")
    } else if 754 <= n && n <= 755 {
        Some("CA")
    } else if n == 759 {
        Some("VE")
    } else if 760 <= n && n <= 769 {
        Some("CH")
    } else if n == 773 {
        Some("UY")
    } else if 789 <= n && n <= 790 {
        Some("BR")
    } else if 800 <= n && n <= 839 {
        Some("IT")
    } else if 840 <= n && n <= 849 {
        Some("ES")
    } else if n == 858 {
        Some("SK")
    } else if n == 859 {
        Some("CZ")
    } else if n == 860 {
        Some("RS")
    } else if 870 <= n && n <= 879 {
        Some("NL")
    } else if n == 885 {
        Some("TH")
    } else if n == 888 {
        Some("SG")
    } else if 900 <= n && n <= 919 {
        Some("AT")
    } else if 930 <= n && n <= 939 {
        Some("AU")
    } else if 940 <= n && n <= 949 {
        Some("NZ")
    } else {
        None
    }
}

impl PartialEq for GTIN {
    fn eq(&self, other: &GTIN) -> (r: bool) {
        match (self, other) {
            (GTIN::UpcE(a), GTIN::UpcE(b)) => util::eq_digit_slices(a.as_slice(), b.as_slice()),
            (GTIN::UpcA(a), GTIN::UpcA(b)) => util::eq_digit_slices(a.as_slice(), b.as_slice()),
            (GTIN::Ean8(a), GTIN::Ean8(b)) => util::eq_digit_slices(a.as_slice(), b.as_slice()),
            (GTIN::Ean13(a), GTIN::Ean13(b)) => util::eq_digit_slices(a.as_slice(), b.as_slice()),
            (GTIN::Gtin14(a), GTIN::Gtin14(b)) => util::eq_digit_slices(
                a.as_slice(),
                b.as_slice(),
            ),
            _ => false,
        }
    }
}

impl Eq for GTIN {

}

impl vstd::std_specs::cmp::PartialEqSpecImpl for GTIN {
    open spec fn obeys_eq_spec() -> bool {
        true
    }

    open spec fn eq_spec(&self, other: &GTIN) -> bool {
        match (self, other) {
            (GTIN::UpcE(a), GTIN::UpcE(b)) => a@ == b@,
            (GTIN::UpcA(a), GTIN::UpcA(b)) => a@ == b@,
            (GTIN::Ean8(a), GTIN::Ean8(b)) => a@ == b@,
            (GTIN::Ean13(a), GTIN::Ean13(b)) => a@ == b@,
            (GTIN::Gtin14(a), GTIN::Gtin14(b)) => a@ == b@,
            _ => false,
        }
    }
}

} // verus!
