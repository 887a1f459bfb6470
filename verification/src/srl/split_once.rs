//! Locator validation that splits at the first separator only: whatever
//! follows — even a second separator — is part of the address and falls
//! to the character check.

use vstd::prelude::*;
use vstd::string::StrSliceExecFns;
use vstd::string::StringExecFns;
use crate::srl::{SrlModel, find_sep, first_non_lower};

verus! {

#[derive(Debug, Eq, PartialEq)]
pub enum SRLValidationError {
    EmptyProtocol,
    EmptyAddress,
    InvalidCharacterInProtocol(char),
    InvalidCharacterInAddress(char),
}

/// The verdict on one part of a locator.
enum Part {
    Valid,
    Empty,
    Invalid(char),
}

#[derive(Debug, Eq, PartialEq)]
pub struct SRL {
    protocol: Option<String>,
    address: String,
}

impl View for SRL {
    type V = SrlModel;

    closed spec fn view(&self) -> SrlModel {
        SrlModel {
            protocol: match self.protocol {
                Some(p) => Some(p@),
                None => None,
            },
            address: self.address@,
        }
    }
}

/// What validation returns for given text: the part before the first
/// separator (if one occurs) must be a non-empty run of lowercase
/// letters, and so must everything after it; without a separator the
/// whole text is the address.
pub open spec fn spec_new(s: Seq<char>) -> Result<SrlModel, SRLValidationError> {
    match find_sep(s, 0) {
        None => if s.len() == 0 {
            Err(SRLValidationError::EmptyAddress)
        } else {
            match first_non_lower(s, 0) {
                Some(c) => Err(SRLValidationError::InvalidCharacterInAddress(c)),
                None => Ok(SrlModel { protocol: None, address: s }),
            }
        },
        Some(i) => {
            let protocol = s.subrange(0, i);
            let address = s.subrange(i + 3, s.len() as int);
            if protocol.len() == 0 {
                Err(SRLValidationError::EmptyProtocol)
            } else {
                match first_non_lower(protocol, 0) {
                    Some(c) => Err(SRLValidationError::InvalidCharacterInProtocol(c)),
                    None => if address.len() == 0 {
                        Err(SRLValidationError::EmptyAddress)
                    } else {
                        match first_non_lower(address, 0) {
                            Some(c) => Err(SRLValidationError::InvalidCharacterInAddress(c)),
                            None => Ok(SrlModel { protocol: Some(protocol), address }),
                        }
                    },
                }
            }
        },
    }
}

/// The first separator at or after `from`, found by a scan.
fn scan_sep(s: &str, n: usize, from: usize) -> (r: Option<usize>)
    requires
        n == s@.len(),
        from <= n,
    ensures
        match r {
            Some(i) => find_sep(s@, from as int) == Some(i as int) && from <= i && i + 3 <= n,
            None => find_sep(s@, from as int) is None,
        },
{
    let mut i = from;
    while n - i >= 3
        invariant
            n == s@.len(),
            from <= i <= n,
            find_sep(s@, from as int) == find_sep(s@, i as int),
        decreases n - i,
    {
        if s.get_char(i) == ':' && s.get_char(i + 1) == '/' && s.get_char(i + 2) == '/' {
            return Some(i);
        }
        i = i + 1;
    }
    None
}

impl SRL {
    /// Validates locator text, exactly as [`spec_new`] lays down.
    pub fn new(srl: &str) -> (r: Result<Self, SRLValidationError>)
        ensures
            match r {
                Ok(v) => spec_new(srl@) == Ok::<SrlModel, SRLValidationError>(v@),
                Err(e) => spec_new(srl@) == Err::<SrlModel, SRLValidationError>(e),
            },
    {
        let n = srl.unicode_len();
        match scan_sep(srl, n, 0) {
            None => {
                match Self::is_part_valid(srl) {
                    Part::Empty => Err(SRLValidationError::EmptyAddress),
                    Part::Invalid(c) => Err(SRLValidationError::InvalidCharacterInAddress(c)),
                    Part::Valid => Ok(
                        SRL { protocol: None, address: String::from_str(srl) },
                    ),
                }
            },
            Some(i) => {
                let protocol_str = srl.substring_char(0, i);
                let address_str = srl.substring_char(i + 3, n);
                match Self::is_part_valid(protocol_str) {
                    Part::Empty => Err(SRLValidationError::EmptyProtocol),
                    Part::Invalid(c) => Err(SRLValidationError::InvalidCharacterInProtocol(c)),
                    Part::Valid => match Self::is_part_valid(address_str) {
                        Part::Empty => Err(SRLValidationError::EmptyAddress),
                        Part::Invalid(c) => Err(SRLValidationError::InvalidCharacterInAddress(c)),
                        Part::Valid => Ok(
                            SRL {
                                protocol: Some(String::from_str(protocol_str)),
                                address: String::from_str(address_str),
                            },
                        ),
                    },
                }
            },
        }
    }

    /// The verdict on one part: empty, or the first character that is
    /// not a lowercase letter, or a pass.
    fn is_part_valid(p: &str) -> (r: Part)
        ensures
            match r {
                Part::Empty => p@.len() == 0,
                Part::Invalid(c) => first_non_lower(p@, 0) == Some(c),
                Part::Valid => p@.len() > 0 && first_non_lower(p@, 0) is None,
            },
    {
        let n = p.unicode_len();
        if n == 0 {
            return Part::Empty;
        }

        let mut j: usize = 0;
        while j < n
            invariant
                n == p@.len(),
                j <= n,
                first_non_lower(p@, 0) == first_non_lower(p@, j as int),
            decreases n - j,
        {
            let c = p.get_char(j);
            let u = c as u32;
            if u < 'a' as u32 || u > 'z' as u32 {
                return Part::Invalid(c);
            }
            j = j + 1;
        }

        Part::Valid
    }

    /// The protocol, if the locator has one.
    pub fn get_protocol(&self) -> (r: Option<&str>)
        ensures
            match r {
                Some(p) => self@.protocol == Some(p@),
                None => self@.protocol is None,
            },
    {
        match &self.protocol {
            Some(p) => Some(p.as_str()),
            None => None,
        }
    }

    /// The address.
    pub fn get_address(&self) -> (r: &str)
        ensures
            r@ == self@.address,
    {
        self.address.as_str()
    }
}

} // verus!
