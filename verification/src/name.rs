//! Validated logical service names.
//!
//! A header may carry a hostname-like logical name. A `Name` can only be
//! built through `parse`, so every value satisfies `is_valid_name`: ASCII
//! letters, digits, hyphens and dots, starting and ending with a letter or
//! digit, no empty label (no two adjacent dots), at most 253 bytes.

use vstd::prelude::*;

verus! {

/// A byte allowed anywhere in a name.
pub open spec fn valid_name_byte(c: u8) -> bool {
    alnum_byte(c) || c == 0x2d || c == 0x2e
}

/// An ASCII letter or digit.
pub open spec fn alnum_byte(c: u8) -> bool {
    (0x61 <= c <= 0x7a) || (0x41 <= c <= 0x5a) || (0x30 <= c <= 0x39)
}

/// What this library accepts as a logical service name.
pub open spec fn is_valid_name(s: Seq<u8>) -> bool {
    &&& 1 <= s.len() <= 253
    &&& forall|i: int| 0 <= i < s.len() ==> valid_name_byte(#[trigger] s[i])
    &&& alnum_byte(s[0])
    &&& alnum_byte(s[s.len() - 1])
    &&& forall|i: int| 0 <= i < s.len() - 1 ==> !(#[trigger] s[i] == 0x2e && s[i + 1] == 0x2e)
}

/// A validated logical service name.
#[derive(Clone, Debug)]
pub struct Name {
    bytes: Vec<u8>,
}

impl View for Name {
    type V = Seq<u8>;

    closed spec fn view(&self) -> Seq<u8> {
        self.bytes@
    }
}

impl Name {
    /// Every `Name` holds a valid name; `parse` is the only constructor.
    pub open spec fn wf(&self) -> bool {
        is_valid_name(self@)
    }

    /// Accepts the bytes as a `Name` exactly when they form a valid name.
    pub fn parse(bytes: Vec<u8>) -> (r: Option<Name>)
        ensures
            r is Some <==> is_valid_name(bytes@),
            r matches Some(n) ==> n@ == bytes@ && n.wf(),
    {
        if check_name(bytes.as_slice()) {
            Some(Name { bytes })
        } else {
            None
        }
    }

    /// The bytes of the name.
    pub fn as_bytes(&self) -> (r: &[u8])
        ensures
            r@ == self@,
    {
        self.bytes.as_slice()
    }

    /// The length of the name in bytes.
    pub fn len(&self) -> (r: usize)
        ensures
            r == self@.len(),
    {
        self.bytes.len()
    }
}

/// Decides `is_valid_name` on a byte slice.
pub fn check_name(s: &[u8]) -> (r: bool)
    ensures
        r == is_valid_name(s@),
{
    let n = s.len();
    if n == 0 || n > 253 {
        return false;
    }
    if !alnum_exec(s[0]) || !alnum_exec(s[n - 1]) {
        return false;
    }
    let mut i: usize = 0;
    while i < n
        invariant
            0 < n == s@.len() <= 253,
            i <= n,
            forall|j: int| 0 <= j < i ==> valid_name_byte(#[trigger] s@[j]),
            forall|j: int| 0 <= j < i && j < n - 1 ==> !(#[trigger] s@[j] == 0x2e && s@[j + 1]
                == 0x2e),
        decreases n - i,
    {
        let c = s[i];
        if !(alnum_exec(c) || c == 0x2d || c == 0x2e) {
            return false;
        }
        if c == 0x2e && i + 1 < n && s[i + 1] == 0x2e {
            return false;
        }
        i += 1;
    }
    true
}

/// Decides `alnum_byte`.
fn alnum_exec(c: u8) -> (r: bool)
    ensures
        r == alnum_byte(c),
{
    (0x61 <= c && c <= 0x7a) || (0x41 <= c && c <= 0x5a) || (0x30 <= c && c <= 0x39)
}

} // verus!
