//! UEFI status codes as the specification's tables list them, and the
//! diagnostics that code generation reports.

use vstd::prelude::*;
use crate::readelf::numbers::{IntErrorKind, from_str_radix, parse_usize};
use crate::text::chars_of;
use crate::uefi::Status;
use vstd::string::*;

verus! {

/// A diagnostic of code generation, by level (`Error` is the error level).
#[derive(Debug)]
pub enum Diag {
    Error(String),
    Warn(String),
    Note(String),
    Help(String),
}

/// The three tables of status codes.
#[derive(Debug)]
pub struct StatusCode {
    pub success: Vec<StatusCodeInfo>,
    pub error: Vec<StatusCodeInfo>,
    pub warn: Vec<StatusCodeInfo>,
}

/// One status code: its mnemonic, its value and its description.
#[derive(Debug)]
pub struct StatusCodeInfo {
    pub mnemonic: String,
    pub value: usize,
    pub desc: String,
}

/// A status code as plain values.
pub struct StatusCodeText {
    pub mnemonic: Seq<char>,
    pub value: usize,
    pub desc: Seq<char>,
}

impl View for StatusCodeInfo {
    type V = StatusCodeText;

    open spec fn view(&self) -> StatusCodeText {
        StatusCodeText { mnemonic: self.mnemonic@, value: self.value, desc: self.desc@ }
    }
}

/// The views of a list of status codes.
pub open spec fn code_views(v: Seq<StatusCodeInfo>) -> Seq<StatusCodeText> {
    v.map_values(|x: StatusCodeInfo| x@)
}

/// The value of the highest bit of a `usize`.
pub open spec fn high_bit() -> nat {
    (usize::MAX as nat + 1) / 2
}

impl StatusCodeInfo {
    /// The bit that every error code has set: the highest bit of a `usize`.
    pub fn error_bit() -> (b: usize)
        ensures
            b as nat == high_bit(),
            b as nat * 2 == usize::MAX as nat + 1,
    {
        usize::MAX - usize::MAX / 2
    }
}

/// Every value with the error bit set in it carries the error bit.
pub proof fn lemma_marked_is_error(v: usize)
    ensures
        (v | (high_bit() as usize)) & (high_bit() as usize) == high_bit() as usize,
{
    let b = high_bit() as usize;
    assert((v | b) & b == b) by (bit_vector);
}

/// A table row can be read: it has three cells, and the second is a decimal number.
pub open spec fn row_readable(row: Seq<Seq<char>>) -> bool {
    row.len() >= 3 && from_str_radix(row[1], 10, usize::MAX as nat) is Ok
}

/// The status code that a table row describes: mnemonic, decimal value, description.
pub open spec fn code_of_row(row: Seq<Seq<char>>) -> StatusCodeText {
    StatusCodeText {
        mnemonic: row[0],
        value: from_str_radix(row[1], 10, usize::MAX as nat)->Ok_0 as usize,
        desc: row[2],
    }
}

/// The cells of each row of a table.
pub open spec fn table_views(rows: Seq<Vec<String>>) -> Seq<Seq<Seq<char>>> {
    rows.map_values(|r: Vec<String>| r@.map_values(|c: String| c@))
}

fn clone_string(s: &String) -> (r: String)
    ensures
        r@ == s@,
{
    String::from_str(s.as_str())
}

/// The status codes that the rows of a table describe, in order.
pub fn status_codes_info(rows: Vec<Vec<String>>) -> (r: Vec<StatusCodeInfo>)
    requires
        forall|i: int| 0 <= i < rows@.len() ==> row_readable(#[trigger] table_views(rows@)[i]),
    ensures
        r@.len() == rows@.len(),
        forall|i: int|
            0 <= i < r@.len() ==> #[trigger] r@[i]@ == code_of_row(table_views(rows@)[i]),
{
    let ghost tv = table_views(rows@);
    let mut r: Vec<StatusCodeInfo> = Vec::new();
    let mut i: usize = 0;
    while i < rows.len()
        invariant
            i <= rows@.len(),
            tv == table_views(rows@),
            forall|j: int| 0 <= j < rows@.len() ==> row_readable(#[trigger] tv[j]),
            r@.len() == i,
            forall|j: int| 0 <= j < i ==> #[trigger] r@[j]@ == code_of_row(tv[j]),
        decreases rows@.len() - i,
    {
        let row = &rows[i];
        assert(row_readable(tv[i as int]));
        assert(tv[i as int] == row@.map_values(|c: String| c@));
        assert(row@[0]@ == tv[i as int][0] && row@[1]@ == tv[i as int][1] && row@[2]@ == tv[i
            as int][2]);
        let digits = chars_of(row[1].as_str());
        let value = match parse_usize(digits.as_slice()) {
            Ok(v) => v,
            Err(_) => {
                assert(false);
                0
            },
        };
        proof {
            crate::readelf::numbers::lemma_radix_bound(tv[i as int][1], 10, usize::MAX as nat);
        }
        r.push(
            StatusCodeInfo {
                mnemonic: clone_string(&row[0]),
                value,
                desc: clone_string(&row[2]),
            },
        );
        i = i + 1;
    }
    r
}

/// Sets the error bit in the value of every code.
pub fn mark_errors(codes: &mut Vec<StatusCodeInfo>)
    ensures
        final(codes)@.len() == old(codes)@.len(),
        forall|i: int|
            0 <= i < final(codes)@.len() ==> (#[trigger] final(codes)@[i]).value == old(codes)@[i].value
                | (high_bit() as usize) && final(codes)@[i].mnemonic@ == old(codes)@[i].mnemonic@
                && final(codes)@[i].desc@ == old(codes)@[i].desc@,
{
    let bit = StatusCodeInfo::error_bit();
    let ghost start = codes@;
    let mut i: usize = 0;
    while i < codes.len()
        invariant
            i <= codes@.len(),
            codes@.len() == start.len(),
            bit == high_bit() as usize,
            forall|j: int|
                0 <= j < i ==> (#[trigger] codes@[j]).value == start[j].value | bit
                    && codes@[j].mnemonic@ == start[j].mnemonic@ && codes@[j].desc@
                    == start[j].desc@,
            forall|j: int| i <= j < codes@.len() ==> #[trigger] codes@[j] == start[j],
        decreases codes@.len() - i,
    {
        let v = codes[i].value | bit;
        let m = clone_string(&codes[i].mnemonic);
        let d = clone_string(&codes[i].desc);
        codes.set(i, StatusCodeInfo { mnemonic: m, value: v, desc: d });
        i = i + 1;
    }
}

/// The tables of status codes read from their rows, with the error bit set in
/// every error code.
pub fn status_code_tables(
    success_rows: Vec<Vec<String>>,
    error_rows: Vec<Vec<String>>,
    warn_rows: Vec<Vec<String>>,
) -> (t: StatusCode)
    requires
        forall|i: int|
            0 <= i < success_rows@.len() ==> row_readable(#[trigger] table_views(success_rows@)[i]),
        forall|i: int|
            0 <= i < error_rows@.len() ==> row_readable(#[trigger] table_views(error_rows@)[i]),
        forall|i: int|
            0 <= i < warn_rows@.len() ==> row_readable(#[trigger] table_views(warn_rows@)[i]),
    ensures
        t.success@.len() == success_rows@.len(),
        forall|i: int|
            0 <= i < t.success@.len() ==> #[trigger] t.success@[i]@ == code_of_row(
                table_views(success_rows@)[i],
            ),
        t.warn@.len() == warn_rows@.len(),
        forall|i: int|
            0 <= i < t.warn@.len() ==> #[trigger] t.warn@[i]@ == code_of_row(
                table_views(warn_rows@)[i],
            ),
        t.error@.len() == error_rows@.len(),
        forall|i: int|
            0 <= i < t.error@.len() ==> {
                let c = code_of_row(table_views(error_rows@)[i]);
                &&& (#[trigger] t.error@[i]).value == c.value | (high_bit() as usize)
                &&& t.error@[i].mnemonic@ == c.mnemonic
                &&& t.error@[i].desc@ == c.desc
            },
{
    let success = status_codes_info(success_rows);
    let mut error = status_codes_info(error_rows);
    let ghost read = error@;
    let warn = status_codes_info(warn_rows);
    mark_errors(&mut error);
    assert forall|i: int| 0 <= i < error@.len() implies {
        let c = code_of_row(table_views(error_rows@)[i]);
        &&& (#[trigger] error@[i]).value == c.value | (high_bit() as usize)
        &&& error@[i].mnemonic@ == c.mnemonic
        &&& error@[i].desc@ == c.desc
    } by {
        assert(read[i]@ == code_of_row(table_views(error_rows@)[i]));
    }
    StatusCode { success, error, warn }
}

/// Why a status is not a success.
#[derive(Debug)]
pub enum StatusError {
    /// An error status: its mnemonic, `: ` and its description.
    ErrorStatus(String),
    /// A status that no table lists.
    CustomStatus,
}

/// The first code of `v` with value `x`.
pub open spec fn first_with_value(v: Seq<StatusCodeText>, x: usize) -> Option<int>
    decreases v.len(),
{
    if v.len() == 0 {
        None
    } else {
        match first_with_value(v.drop_last(), x) {
            Some(i) => Some(i),
            None => if v.last().value == x {
                Some(v.len() - 1)
            } else {
                None
            },
        }
    }
}

/// The message of an error status.
pub open spec fn error_message(c: StatusCodeText) -> Seq<char> {
    c.mnemonic + ": "@ + c.desc
}

/// The code that `first_with_value` finds is in the table and has the value.
pub proof fn lemma_first_with_value(v: Seq<StatusCodeText>, x: usize)
    ensures
        first_with_value(v, x) matches Some(i) ==> 0 <= i < v.len() && v[i].value == x,
    decreases v.len(),
{
    if v.len() > 0 {
        lemma_first_with_value(v.drop_last(), x);
    }
}

fn find_code(v: &Vec<StatusCodeInfo>, x: usize) -> (r: Option<usize>)
    ensures
        match first_with_value(code_views(v@), x) {
            Some(i) => r == Some(i as usize),
            None => r is None,
        },
{
    let ghost cv = code_views(v@);
    let mut i: usize = 0;
    while i < v.len()
        invariant
            i <= v@.len(),
            cv == code_views(v@),
            first_with_value(cv.take(i as int), x) is None,
        decreases v@.len() - i,
    {
        assert(cv.take(i + 1).drop_last() =~= cv.take(i as int));
        assert(cv.take(i + 1).last() == cv[i as int]);
        if v[i].value == x {
            proof {
                lemma_first_extends(cv, x, (i + 1) as nat);
            }
            return Some(i);
        }
        i = i + 1;
    }
    assert(cv.take(v@.len() as int) =~= cv);
    None
}

proof fn lemma_first_extends(v: Seq<StatusCodeText>, x: usize, k: nat)
    requires
        k <= v.len(),
        first_with_value(v.take(k as int), x) is Some,
    ensures
        first_with_value(v, x) == first_with_value(v.take(k as int), x),
    decreases v.len() - k,
{
    if k < v.len() {
        assert(v.take(k as int + 1).drop_last() =~= v.take(k as int));
        lemma_first_extends(v, x, k + 1);
    } else {
        assert(v.take(k as int) =~= v);
    }
}

/// The verdict on a status by the tables: a listed success or warning is the
/// status itself; a listed error is its message; anything else is a custom
/// status. Earlier tables and earlier rows take precedence.
pub fn ok_or(status: Status, table: &StatusCode) -> (r: Result<Status, StatusError>)
    ensures
        ({
            let x = status.0;
            if first_with_value(code_views(table.success@), x) is Some || first_with_value(
                code_views(table.warn@),
                x,
            ) is Some {
                r matches Ok(s) && s == status
            } else {
                match first_with_value(code_views(table.error@), x) {
                    Some(i) => r matches Err(StatusError::ErrorStatus(m)) && m@ == error_message(
                        code_views(table.error@)[i],
                    ),
                    None => r matches Err(StatusError::CustomStatus),
                }
            }
        }),
{
    let x = status.0;
    let in_success = find_code(&table.success, x);
    let in_warn = find_code(&table.warn, x);
    if in_success.is_some() || in_warn.is_some() {
        return Ok(status);
    }
    match find_code(&table.error, x) {
        Some(i) => {
            let n = table.error.len();
            proof {
                lemma_first_with_value(code_views(table.error@), x);
            }
            let c = &table.error[i];
            let mut m = clone_string(&c.mnemonic);
            m.append(": ");
            m.append(c.desc.as_str());
            proof {
                reveal_strlit(": ");
            }
            assert(m@ =~= error_message(code_views(table.error@)[i as int]));
            Err(StatusError::ErrorStatus(m))
        },
        None => Err(StatusError::CustomStatus),
    }
}

} // verus!
