use vstd::prelude::*;

verus! {

/// Why an assembly run failed. Every failure aborts the whole run.
#[derive(Debug)]
pub enum AsmError {
    /// A word in a label body that names no instruction.
    UnknownMnemonic(String),
    /// An operand whose first character starts no operand kind (or an empty operand).
    BadOperand(String),
    /// A register or immediate whose digits are malformed or out of range.
    BadNumber(String),
    /// A label name defined a second time.
    DuplicateLabel(String),
    /// A label operand that names no label of the program.
    UndefinedLabel(String),
    /// An operand of a kind that its slot does not permit: the instruction at
    /// `index` in the label `label`, operand slot `slot` (counted from 0).
    WrongOperandKind { label: String, index: usize, slot: usize },
}

/// The mathematical value of an error.
pub enum ErrV {
    UnknownMnemonic(Seq<char>),
    BadOperand(Seq<char>),
    BadNumber(Seq<char>),
    DuplicateLabel(Seq<char>),
    UndefinedLabel(Seq<char>),
    WrongOperandKind { label: Seq<char>, index: usize, slot: usize },
}

impl View for AsmError {
    type V = ErrV;

    open spec fn view(&self) -> ErrV {
        match self {
            AsmError::UnknownMnemonic(s) => ErrV::UnknownMnemonic(s@),
            AsmError::BadOperand(s) => ErrV::BadOperand(s@),
            AsmError::BadNumber(s) => ErrV::BadNumber(s@),
            AsmError::DuplicateLabel(s) => ErrV::DuplicateLabel(s@),
            AsmError::UndefinedLabel(s) => ErrV::UndefinedLabel(s@),
            AsmError::WrongOperandKind { label, index, slot } => ErrV::WrongOperandKind {
                label: label@,
                index: *index,
                slot: *slot,
            },
        }
    }
}

/// The mathematical value of an outcome: the view of the value or of the error.
pub open spec fn result_view<T: View>(r: Result<T, AsmError>) -> Result<T::V, ErrV> {
    match r {
        Ok(v) => Ok(v@),
        Err(e) => Err(e@),
    }
}

/// Relies on `String::push`: the character is appended at the end.
#[verifier::external_body]
pub(crate) fn push_char(s: &mut String, c: char)
    ensures
        final(s)@ == old(s)@.push(c),
{
    s.push(c);
}

/// The characters of `v` as a string.
pub fn string_of(v: &Vec<char>) -> (r: String)
    ensures
        r@ == v@,
{
    let mut r = String::new();
    let mut i: usize = 0;
    while i < v.len()
        invariant
            i <= v.len(),
            r@ == v@.take(i as int),
        decreases v.len() - i,
    {
        push_char(&mut r, v[i]);
        i = i + 1;
        assert(r@ =~= v@.take(i as int));
    }
    assert(r@ =~= v@);
    r
}

} // verus!
