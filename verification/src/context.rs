//! The evaluation context and its error policy: the active SQL-mode flags, an
//! append-only warning sequence, and the single decision point that classifies
//! an invalid calendar value as a hard error or as a recorded warning.

use vstd::prelude::*;

verus! {

/// The warning code a truncated or invalid value carries.
pub const ERR_TRUNCATE_WRONG_VALUE: u32 = 1292;

/// The SQL-mode flags this layer reads.
#[derive(Clone, Copy, PartialEq, Eq, Structural, Debug)]
pub struct SqlMode {
    pub no_zero_date: bool,
    pub strict_all_tables: bool,
    pub strict_trans_tables: bool,
}

impl SqlMode {
    pub open spec fn spec_is_strict(self) -> bool {
        self.strict_all_tables || self.strict_trans_tables
    }

    pub fn is_strict(&self) -> (r: bool)
        ensures
            r == self.spec_is_strict(),
    {
        self.strict_all_tables || self.strict_trans_tables
    }
}

/// One recorded diagnostic: a code and a human-readable message.
#[derive(PartialEq, Eq, Debug)]
pub struct Warning {
    pub code: u32,
    pub message: Vec<u8>,
}

/// The failures this layer can raise: an invalid calendar value carrying the
/// offending value's textual form, and a format string that is not valid text.
#[derive(PartialEq, Eq, Debug)]
pub enum EvalError {
    IncorrectDatetimeValue { value: Vec<u8> },
    InvalidEncoding,
}

/// Per-statement evaluation state: the mode flags, the kind of statement being
/// run, and the warnings recorded so far.
pub struct EvalContext {
    pub sql_mode: SqlMode,
    pub in_insert_stmt: bool,
    pub in_update_or_delete_stmt: bool,
    pub warnings: Vec<Warning>,
}

/// The message recorded for an invalid calendar value, built around the
/// value's textual form.
pub open spec fn incorrect_datetime_msg(v: Seq<u8>) -> Seq<u8> {
    seq![
        'I' as u8, 'n' as u8, 'c' as u8, 'o' as u8, 'r' as u8, 'r' as u8, 'e' as u8,
        'c' as u8, 't' as u8, ' ' as u8, 'd' as u8, 'a' as u8, 't' as u8, 'e' as u8,
        't' as u8, 'i' as u8, 'm' as u8, 'e' as u8, ' ' as u8, 'v' as u8, 'a' as u8,
        'l' as u8, 'u' as u8, 'e' as u8, ':' as u8, ' ' as u8, '\'' as u8,
    ] + v + seq!['\'' as u8]
}

/// The two contexts differ only by one warning, appended at the end, whose
/// code marks a wrong value and whose message names the offending value.
pub open spec fn appended_invalid_warning(
    before: EvalContext,
    after: EvalContext,
    value: Seq<u8>,
) -> bool {
    &&& after.sql_mode == before.sql_mode
    &&& after.in_insert_stmt == before.in_insert_stmt
    &&& after.in_update_or_delete_stmt == before.in_update_or_delete_stmt
    &&& after.warnings@.len() == before.warnings@.len() + 1
    &&& forall|i: int|
        0 <= i < before.warnings@.len() ==> after.warnings@[i] == before.warnings@[i]
    &&& after.warnings@.last().code == ERR_TRUNCATE_WRONG_VALUE
    &&& after.warnings@.last().message@ == incorrect_datetime_msg(value)
}

impl EvalContext {
    /// Whether the mode demands hard failures for invalid values in the
    /// statement being run.
    pub open spec fn spec_strict_invalid_value(self) -> bool {
        self.sql_mode.spec_is_strict() && (self.in_insert_stmt || self.in_update_or_delete_stmt)
    }

    pub fn new(sql_mode: SqlMode, in_insert_stmt: bool, in_update_or_delete_stmt: bool) -> (c:
        EvalContext)
        ensures
            c.sql_mode == sql_mode,
            c.in_insert_stmt == in_insert_stmt,
            c.in_update_or_delete_stmt == in_update_or_delete_stmt,
            c.warnings@ == Seq::<Warning>::empty(),
    {
        EvalContext { sql_mode, in_insert_stmt, in_update_or_delete_stmt, warnings: Vec::new() }
    }

    pub fn warning_count(&self) -> (n: usize)
        ensures
            n == self.warnings@.len(),
    {
        self.warnings.len()
    }

    /// The single decision point for an invalid temporal value. A hard error
    /// propagates the error untouched and records nothing; the lenient path
    /// records one warning and succeeds. Any other error class always
    /// propagates.
    pub fn handle_invalid_time_value(&mut self, err: EvalError) -> (r: Result<(), EvalError>)
        ensures
            !(err matches EvalError::IncorrectDatetimeValue { .. }) ==> r == Err::<(),
                EvalError,
            >(err) && *final(self) == *old(self),
            old(self).spec_strict_invalid_value() ==> r == Err::<(), EvalError>(err) && *final(self)
                == *old(self),
            !old(self).spec_strict_invalid_value() ==> (err matches
                EvalError::IncorrectDatetimeValue { value } ==> r == Ok::<(), EvalError>(())
                && appended_invalid_warning(*old(self), *final(self), value@)),
    {
        match err {
            EvalError::IncorrectDatetimeValue { value } => {
                if self.sql_mode.is_strict() && (self.in_insert_stmt
                    || self.in_update_or_delete_stmt) {
                    Err(EvalError::IncorrectDatetimeValue { value })
                } else {
                    let msg = incorrect_datetime_message(value);
                    self.warnings.push(Warning { code: ERR_TRUNCATE_WRONG_VALUE, message: msg });
                    Ok(())
                }
            },
            EvalError::InvalidEncoding => Err(EvalError::InvalidEncoding),
        }
    }
}

/// Builds the recorded message around the offending value's textual form.
fn incorrect_datetime_message(value: Vec<u8>) -> (m: Vec<u8>)
    ensures
        m@ == incorrect_datetime_msg(value@),
{
    let mut m: Vec<u8> = vec![
        'I' as u8, 'n' as u8, 'c' as u8, 'o' as u8, 'r' as u8, 'r' as u8, 'e' as u8,
        'c' as u8, 't' as u8, ' ' as u8, 'd' as u8, 'a' as u8, 't' as u8, 'e' as u8,
        't' as u8, 'i' as u8, 'm' as u8, 'e' as u8, ' ' as u8, 'v' as u8, 'a' as u8,
        'l' as u8, 'u' as u8, 'e' as u8, ':' as u8, ' ' as u8, '\'' as u8,
    ];
    let mut v = value;
    m.append(&mut v);
    m.push('\'' as u8);
    proof {
        assert(m@ =~= incorrect_datetime_msg(value@));
    }
    m
}

} // verus!
