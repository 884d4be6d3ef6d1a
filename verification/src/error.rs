//! Error type of the loader and of the ELF parser.

use vstd::prelude::*;

verus! {

/// Errors reported by the loader: failures of UEFI services, and malformed
/// executable images.
#[derive(Debug)]
pub enum OsoLoaderError {
    Uefi(String),
    EfiParse(String),
}

/// Result type used throughout the loader.
pub type Rslt<T> = Result<T, OsoLoaderError>;

/// What `{:?}` renders for a string with the characters `s`.
pub uninterp spec fn debug_repr(s: Seq<char>) -> Seq<char>;

/// Printable ASCII other than the quote and the backslash, which `{:?}` leaves as is.
pub open spec fn plain_printable(s: Seq<char>) -> bool {
    forall|i: int|
        0 <= i < s.len() ==> ' ' <= #[trigger] s[i] <= '~' && s[i] != '"' && s[i] != '\\'
}

/// `format!("{:?}", s)` for a string slice. Its result is named `debug_repr`; the
/// contract adds what the documentation of `str`'s `Debug` states plainly: the text
/// is wrapped in double quotes, and printable ASCII characters other than the
/// quote and the backslash are not escaped. How other characters are escaped is
/// left unsaid.
#[verifier::external_body]
pub(crate) fn debug_quoted(s: &str) -> (r: String)
    ensures
        r@ == debug_repr(s@),
        plain_printable(s@) ==> r@ == seq!['"'] + s@ + seq!['"'],
{
    format!("{s:?}")
}

impl OsoLoaderError {
    /// The characters of the message carried by either variant.
    pub open spec fn spec_message(&self) -> Seq<char> {
        match self {
            OsoLoaderError::Uefi(e) => e@,
            OsoLoaderError::EfiParse(e) => e@,
        }
    }

    /// The message carried by either variant.
    pub fn message(&self) -> (m: &String)
        ensures
            m == (match self {
                OsoLoaderError::Uefi(e) => e,
                OsoLoaderError::EfiParse(e) => e,
            }),
    {
        match self {
            OsoLoaderError::Uefi(e) => e,
            OsoLoaderError::EfiParse(e) => e,
        }
    }

    /// The text the error displays as: the `Debug` rendering of its message.
    pub fn to_display_string(&self) -> (s: String)
        ensures
            s@ == debug_repr(self.spec_message()),
    {
        debug_quoted(self.message().as_str())
    }
}

} // verus!
