//! Locator validation that splits on every separator: text with more
//! than one `://` is rejected outright.

use vstd::prelude::*;
use vstd::string::StrSliceExecFns;
use vstd::string::StringExecFns;
use crate::srl::{SrlModel, find_sep, first_non_lower};

verus! {

#[derive(Debug, Eq, PartialEq)]
pub enum SRLValidationError {
    EmptyAddress,
    EmptyProtocol,
    InvalidCharacterInProtocol(char),
    InvalidCharacterInAddress(char),
}

#[derive(Debug, Eq, PartialEq)]
pub struct SRL {
    protocol: Option<String>,
    address: String,
}

impl View for SRL {
    type V = SrlModel;

    closed spec fn view(&self) -> SrlModel {
        SrlModel {
            protocol: match self.protocol {
                Some(p) => Some(p@),
                None => None,
            },
            address: self.address@,
        }
    }
}

/// What validation returns for given text: empty text and an empty part
/// are rejected, a second separator is rejected as a stray `:` in the
/// address, and otherwise the first character of a part that is not a
/// lowercase letter is reported; only text without any such fault
/// becomes a locator.
pub open spec fn spec_new(s: Seq<char>) -> Result<SrlModel, SRLValidationError> {
    if s.len() == 0 {
        Err(SRLValidationError::EmptyAddress)
    } else {
        match find_sep(s, 0) {
            None => match first_non_lower(s, 0) {
                Some(c) => Err(SRLValidationError::InvalidCharacterInAddress(c)),
                None => Ok(SrlModel { protocol: None, address: s }),
            },
            Some(i) => if find_sep(s, i + 3) is Some {
                Err(SRLValidationError::InvalidCharacterInAddress(':'))
            } else {
                let protocol = s.subrange(0, i);
                let address = s.subrange(i + 3, s.len() as int);
                if protocol.len() == 0 {
                    Err(SRLValidationError::EmptyProtocol)
                } else if address.len() == 0 {
                    Err(SRLValidationError::EmptyAddress)
                } else {
                    match first_non_lower(protocol, 0) {
                        Some(c) => Err(SRLValidationError::InvalidCharacterInProtocol(c)),
                        None => match first_non_lower(address, 0) {
                            Some(c) => Err(SRLValidationError::InvalidCharacterInAddress(c)),
                            None => Ok(SrlModel { protocol: Some(protocol), address }),
                        },
                    }
                }
            },
        }
    }
}

/// The first separator at or after `from`, found by a scan.
fn scan_sep(s: &str, n: usize, from: usize) -> (r: Option<usize>)
    requires
        n == s@.len(),
        from <= n,
    ensures
        match r {
            Some(i) => find_sep(s@, from as int) == Some(i as int) && from <= i && i + 3 <= n,
            None => find_sep(s@, from as int) is None,
        },
{
    let mut i = from;
    while n - i >= 3
        invariant
            n == s@.len(),
            from <= i <= n,
            find_sep(s@, from as int) == find_sep(s@, i as int),
        decreases n - i,
    {
        if s.get_char(i) == ':' && s.get_char(i + 1) == '/' && s.get_char(i + 2) == '/' {
            return Some(i);
        }
        i = i + 1;
    }
    None
}

/// The first character of `part` that is not a lowercase letter.
fn first_invalid(part: &str) -> (r: Option<char>)
    ensures
        r == first_non_lower(part@, 0),
{
    let n = part.unicode_len();
    let mut j: usize = 0;
    while j < n
        invariant
            n == part@.len(),
            j <= n,
            first_non_lower(part@, 0) == first_non_lower(part@, j as int),
        decreases n - j,
    {
        let c = part.get_char(j);
        let u = c as u32;
        if u < 'a' as u32 || u > 'z' as u32 {
            return Some(c);
        }
        j = j + 1;
    }
    None
}

impl SRL {
    /// Validates locator text, exactly as [`spec_new`] lays down.
    pub fn new(srl_str: &str) -> (r: Result<Self, SRLValidationError>)
        ensures
            match r {
                Ok(srl) => spec_new(srl_str@) == Ok::<SrlModel, SRLValidationError>(srl@),
                Err(e) => spec_new(srl_str@) == Err::<SrlModel, SRLValidationError>(e),
            },
    {
        let n = srl_str.unicode_len();
        if n == 0 {
            return Err(SRLValidationError::EmptyAddress);
        }

        match scan_sep(srl_str, n, 0) {
            None => {
                match first_invalid(srl_str) {
                    Some(c) => Err(SRLValidationError::InvalidCharacterInAddress(c)),
                    None => Ok(
                        SRL { protocol: None, address: String::from_str(srl_str) },
                    ),
                }
            },
            Some(i) => {
                if let Some(_) = scan_sep(srl_str, n, i + 3) {
                    return Err(SRLValidationError::InvalidCharacterInAddress(':'));
                }
                let protocol_str = srl_str.substring_char(0, i);
                let address_str = srl_str.substring_char(i + 3, n);
                if protocol_str.unicode_len() == 0 {
                    return Err(SRLValidationError::EmptyProtocol);
                }
                if address_str.unicode_len() == 0 {
                    return Err(SRLValidationError::EmptyAddress);
                }
                if let Some(c) = first_invalid(protocol_str) {
                    return Err(SRLValidationError::InvalidCharacterInProtocol(c));
                }
                if let Some(c) = first_invalid(address_str) {
                    return Err(SRLValidationError::InvalidCharacterInAddress(c));
                }
                Ok(
                    SRL {
                        protocol: Some(String::from_str(protocol_str)),
                        address: String::from_str(address_str),
                    },
                )
            },
        }
    }

    /// The protocol, if the locator has one.
    pub fn get_protocol(&self) -> (r: Option<&str>)
        ensures
            match r {
                Some(p) => self@.protocol == Some(p@),
                None => self@.protocol is None,
            },
    {
        match &self.protocol {
            Some(p) => Some(p.as_str()),
            None => None,
        }
    }

    /// The address.
    pub fn get_address(&self) -> (r: &str)
        ensures
            r@ == self@.address,
    {
        self.address.as_str()
    }
}

} // verus!
