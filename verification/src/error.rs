//! Error taxonomy: single errors, multi-error accumulation, rendering.

use vstd::prelude::*;

verus! {

/// A single engine error.
#[derive(Debug)]
pub enum DBSingleError {
    /// Storage input/output failure (raised by callers that do the actual I/O).
    IOError(String),
    /// Output rendering failure.
    FmtError(String),
    /// User-facing data error, rendered as `Error: <message>`.
    RequiredError(String),
    /// Syntactically valid statement whose semantics are not implemented.
    UnsupportedOPError(String),
    /// Schema or evaluation error.
    OtherError(String),
}

/// Mathematical model of a single error.
#[verifier::ext_equal]
pub ghost enum ErrV {
    IOError(Seq<char>),
    FmtError(Seq<char>),
    RequiredError(Seq<char>),
    UnsupportedOPError(Seq<char>),
    OtherError(Seq<char>),
}

impl View for DBSingleError {
    type V = ErrV;

    open spec fn view(&self) -> ErrV {
        match self {
            DBSingleError::IOError(m) => ErrV::IOError(m@),
            DBSingleError::FmtError(m) => ErrV::FmtError(m@),
            DBSingleError::RequiredError(m) => ErrV::RequiredError(m@),
            DBSingleError::UnsupportedOPError(m) => ErrV::UnsupportedOPError(m@),
            DBSingleError::OtherError(m) => ErrV::OtherError(m@),
        }
    }
}

/// One rendered error line, without the trailing newline.
pub open spec fn spec_err_line(e: ErrV) -> Seq<char> {
    match e {
        ErrV::IOError(m) => "IOError: "@ + m,
        ErrV::FmtError(m) => "FmtError: "@ + m,
        ErrV::RequiredError(m) => "Error: "@ + m,
        ErrV::UnsupportedOPError(m) => "UnsupportedOPError: "@ + m,
        ErrV::OtherError(m) => "OtherError: "@ + m,
    }
}

impl DBSingleError {
    /// Renders the error as its display line.
    pub fn render(&self) -> (r: String)
        ensures
            r@ == spec_err_line(self@),
    {
        let mut out: String;
        match self {
            DBSingleError::IOError(m) => {
                out = String::from_str("IOError: ");
                out.append(m.as_str());
            }
            DBSingleError::FmtError(m) => {
                out = String::from_str("FmtError: ");
                out.append(m.as_str());
            }
            DBSingleError::RequiredError(m) => {
                out = String::from_str("Error: ");
                out.append(m.as_str());
            }
            DBSingleError::UnsupportedOPError(m) => {
                out = String::from_str("UnsupportedOPError: ");
                out.append(m.as_str());
            }
            DBSingleError::OtherError(m) => {
                out = String::from_str("OtherError: ");
                out.append(m.as_str());
            }
        }
        out
    }
}

/// A collection of errors from one batch; statements keep running after one fails.
#[derive(Debug)]
pub struct DBError {
    /// The individual errors, in the order they occurred.
    pub errors: Vec<DBSingleError>,
}

impl View for DBError {
    type V = Seq<ErrV>;

    open spec fn view(&self) -> Seq<ErrV> {
        Seq::new(self.errors@.len(), |i: int| self.errors@[i]@)
    }
}

/// The rendering of a list of errors: one line per error.
pub open spec fn spec_err_render(es: Seq<ErrV>) -> Seq<char>
    decreases es.len(),
{
    if es.len() == 0 {
        Seq::<char>::empty()
    } else {
        spec_err_line(es[0]) + "\n"@ + spec_err_render(es.drop_first())
    }
}

impl DBError {
    /// Wraps a single error.
    pub fn from_single(e: DBSingleError) -> (r: Self)
        ensures
            r@ =~= seq![e@],
    {
        let mut errors: Vec<DBSingleError> = Vec::new();
        errors.push(e);
        DBError { errors }
    }

    /// Appends all of `other`'s errors to this one.
    pub fn join(&mut self, other: DBError)
        ensures
            final(self)@ =~= old(self)@ + other@,
    {
        let mut o = other;
        self.errors.append(&mut o.errors);
    }

    /// Renders the errors, one line each.
    pub fn render(&self) -> (r: String)
        ensures
            r@ == spec_err_render(self@),
    {
        let mut out = String::new();
        let mut i: usize = 0;
        proof {
            assert(self@.skip(0) =~= self@);
            assert(out@ + spec_err_render(self@) =~= spec_err_render(self@));
        }
        while i < self.errors.len()
            invariant
                i <= self.errors.len(),
                spec_err_render(self@) == out@ + spec_err_render(self@.skip(i as int)),
            decreases self.errors.len() - i,
        {
            let ghost prev = out@;
            let ghost rest = self@.skip(i as int);
            let line = self.errors[i].render();
            out.append(line.as_str());
            out.append("\n");
            proof {
                assert(rest[0] == self@[i as int]);
                assert(rest.drop_first() =~= self@.skip(i as int + 1));
                assert(spec_err_render(rest) == spec_err_line(rest[0]) + "\n"@ + spec_err_render(
                    rest.drop_first(),
                ));
                assert(prev + spec_err_render(rest) =~= out@ + spec_err_render(
                    self@.skip(i as int + 1),
                ));
            }
            i = i + 1;
        }
        out
    }
}

/// The result type of every engine operation.
pub type DBResult<T> = Result<T, DBError>;

/// Combines two results, keeping every error of both.
pub fn join_result(res1: DBResult<()>, res2: DBResult<()>) -> (r: DBResult<()>)
    ensures
        match (res1, res2) {
            (Ok(()), Ok(())) => r matches Ok(()),
            (Ok(()), Err(e2)) => r matches Err(e) && e@ == e2@,
            (Err(e1), Ok(())) => r matches Err(e) && e@ == e1@,
            (Err(e1), Err(e2)) => r matches Err(e) && e@ =~= e1@ + e2@,
        },
{
    match res1 {
        Ok(()) => res2,
        Err(e) => {
            let mut err = e;
            if let Err(e2) = res2 {
                err.join(e2);
            }
            Err(err)
        }
    }
}

/// Builds an `OtherError` wrapped in a `DBError`.
pub fn other_err(msg: String) -> (r: DBError)
    ensures
        r@ =~= seq![ErrV::OtherError(msg@)],
{
    DBError::from_single(DBSingleError::OtherError(msg))
}

/// Builds an `UnsupportedOPError` wrapped in a `DBError`.
pub fn unsupported_err(msg: String) -> (r: DBError)
    ensures
        r@ =~= seq![ErrV::UnsupportedOPError(msg@)],
{
    DBError::from_single(DBSingleError::UnsupportedOPError(msg))
}

/// Builds a `RequiredError` wrapped in a `DBError`.
pub fn required_err(msg: String) -> (r: DBError)
    ensures
        r@ =~= seq![ErrV::RequiredError(msg@)],
{
    DBError::from_single(DBSingleError::RequiredError(msg))
}

} // verus!
