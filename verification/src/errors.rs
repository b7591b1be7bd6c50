use vstd::prelude::*;
use vstd::string::StringExecFns;

verus! {

/// The error of every fallible operation of the library.
#[derive(Debug, Clone)]
pub enum CategoryError {
    ShapeMismatch { expected: Vec<usize>, found: Vec<usize> },
    InvalidInput(String),
    NumericalError(String),
    Backend(String),
}

pub type CategoryResult<T> = Result<T, CategoryError>;

/// The decimal digit for `d`.
pub open spec fn digit_char(d: nat) -> char {
    if d == 0 {
        '0'
    } else if d == 1 {
        '1'
    } else if d == 2 {
        '2'
    } else if d == 3 {
        '3'
    } else if d == 4 {
        '4'
    } else if d == 5 {
        '5'
    } else if d == 6 {
        '6'
    } else if d == 7 {
        '7'
    } else if d == 8 {
        '8'
    } else {
        '9'
    }
}

/// `n` written in decimal.
pub open spec fn decimal(n: nat) -> Seq<char>
    decreases n,
{
    if n < 10 {
        seq![digit_char(n)]
    } else {
        decimal(n / 10) + seq![digit_char(n % 10)]
    }
}

/// The numbers of `s` written in decimal, separated by `, `.
pub open spec fn joined(s: Seq<usize>) -> Seq<char>
    decreases s.len(),
{
    if s.len() == 0 {
        Seq::empty()
    } else if s.len() == 1 {
        decimal(s[0] as nat)
    } else {
        joined(s.drop_last()) + ", "@ + decimal(s.last() as nat)
    }
}

/// A list of numbers as `{:?}` writes it: `[1, 2, 3]`.
pub open spec fn debug_list(s: Seq<usize>) -> Seq<char> {
    "["@ + joined(s) + "]"@
}

impl CategoryError {
    /// The text that describes the error.
    pub open spec fn spec_message(&self) -> Seq<char> {
        match self {
            CategoryError::ShapeMismatch { expected, found } => "shape mismatch: expected "@
                + debug_list(expected@) + ", found "@ + debug_list(found@),
            CategoryError::InvalidInput(msg) => "invalid input: "@ + msg@,
            CategoryError::NumericalError(msg) => "numerical error: "@ + msg@,
            CategoryError::Backend(msg) => "backend error: "@ + msg@,
        }
    }

    /// Describes the error, as its `Display` text.
    pub fn message(&self) -> (r: String)
        ensures
            r@ == self.spec_message(),
    {
        match self {
            CategoryError::ShapeMismatch { expected, found } => {
                let mut out = String::from_str("shape mismatch: expected ");
                push_debug_list(&mut out, expected);
                out.append(", found ");
                push_debug_list(&mut out, found);
                out
            },
            CategoryError::InvalidInput(msg) => {
                let mut out = String::from_str("invalid input: ");
                out.append(msg.as_str());
                out
            },
            CategoryError::NumericalError(msg) => {
                let mut out = String::from_str("numerical error: ");
                out.append(msg.as_str());
                out
            },
            CategoryError::Backend(msg) => {
                let mut out = String::from_str("backend error: ");
                out.append(msg.as_str());
                out
            },
        }
    }
}

fn digit_str(d: usize) -> (r: &'static str)
    requires
        d < 10,
    ensures
        r@ == seq![digit_char(d as nat)],
{
    if d == 0 {
        proof {
            reveal_strlit("0");
        }
        "0"
    } else if d == 1 {
        proof {
            reveal_strlit("1");
        }
        "1"
    } else if d == 2 {
        proof {
            reveal_strlit("2");
        }
        "2"
    } else if d == 3 {
        proof {
            reveal_strlit("3");
        }
        "3"
    } else if d == 4 {
        proof {
            reveal_strlit("4");
        }
        "4"
    } else if d == 5 {
        proof {
            reveal_strlit("5");
        }
        "5"
    } else if d == 6 {
        proof {
            reveal_strlit("6");
        }
        "6"
    } else if d == 7 {
        proof {
            reveal_strlit("7");
        }
        "7"
    } else if d == 8 {
        proof {
            reveal_strlit("8");
        }
        "8"
    } else {
        proof {
            reveal_strlit("9");
        }
        "9"
    }
}

/// Appends `n` in decimal.
pub fn push_decimal(out: &mut String, n: usize)
    ensures
        final(out)@ == old(out)@ + decimal(n as nat),
    decreases n,
{
    if n >= 10 {
        push_decimal(out, n / 10);
    }
    out.append(digit_str(n % 10));
    assert(final(out)@ =~= old(out)@ + decimal(n as nat)) by {
        if n >= 10 {
            assert(decimal(n as nat) == decimal((n / 10) as nat) + seq![digit_char((n % 10) as nat)]);
        }
    }
}

/// Appends the numbers as `{:?}` writes a list of them.
pub fn push_debug_list(out: &mut String, items: &Vec<usize>)
    ensures
        final(out)@ == old(out)@ + debug_list(items@),
{
    let ghost start = out@;
    proof {
        reveal_strlit("[");
        reveal_strlit("]");
        reveal_strlit(", ");
    }
    out.append("[");
    let mut i: usize = 0;
    while i < items.len()
        invariant
            i <= items@.len(),
            out@ == start + "["@ + joined(items@.subrange(0, i as int)),
        decreases items@.len() - i,
    {
        let ghost prefix = items@.subrange(0, i as int);
        let ghost next = items@.subrange(0, i + 1);
        assert(next.drop_last() =~= prefix);
        if i > 0 {
            out.append(", ");
        }
        push_decimal(out, items[i]);
        proof {
            if i == 0 {
                assert(prefix =~= Seq::<usize>::empty());
                assert(out@ =~= start + "["@ + joined(next));
            } else {
                assert(out@ =~= start + "["@ + joined(next));
            }
        }
        i += 1;
    }
    assert(items@.subrange(0, items@.len() as int) =~= items@);
    out.append("]");
    assert(out@ =~= start + debug_list(items@));
}

} // verus!

verus! {

#[verifier::external_type_specification]
#[verifier::external_body]
pub struct ExCandleError(candle_core::Error);

#[verifier::external_type_specification]
#[verifier::external_body]
pub struct ExIoError(std::io::Error);

/// The `Display` text of an `ndarray` shape error: it names the error's
/// kind and describes it, from the kind alone.
pub uninterp spec fn shape_error_text(e: ndarray::ShapeError) -> Seq<char>;

/// `ToString::to_string` of an `ndarray` shape error.
#[verifier::external_body]
fn shape_error_to_string(e: &ndarray::ShapeError) -> (r: String)
    ensures
        r@ == shape_error_text(*e),
{
    e.to_string()
}

/// `ToString::to_string` of a `candle_core` error. Its text may carry a
/// backtrace, so nothing fixes it here.
#[verifier::external_body]
fn candle_error_to_string(e: &candle_core::Error) -> String {
    e.to_string()
}

/// `ToString::to_string` of an I/O error. The text comes from the
/// operating system, so nothing fixes it here.
#[verifier::external_body]
fn io_error_to_string(e: &std::io::Error) -> String {
    e.to_string()
}

impl CategoryError {
    /// A shape error of `ndarray` as invalid input.
    pub fn from_shape_error(error: ndarray::ShapeError) -> (r: CategoryError)
        ensures
            r matches CategoryError::InvalidInput(msg) && msg@ == "ndarray shape error: "@
                + shape_error_text(error),
    {
        let mut msg = String::from_str("ndarray shape error: ");
        let text = shape_error_to_string(&error);
        msg.append(text.as_str());
        CategoryError::InvalidInput(msg)
    }

    /// A `candle_core` error as a backend error carrying its text.
    pub fn from_candle_error(error: candle_core::Error) -> (r: CategoryError)
        ensures
            r is Backend,
    {
        CategoryError::Backend(candle_error_to_string(&error))
    }

    /// An I/O error as a backend error: `io error: ` and its text.
    pub fn from_io_error(error: std::io::Error) -> (r: CategoryError)
        ensures
            r matches CategoryError::Backend(msg) && msg@.len() >= "io error: "@.len() && msg@.subrange(
                0,
                "io error: "@.len() as int,
            ) == "io error: "@,
    {
        let mut msg = String::from_str("io error: ");
        let ghost prefix = msg@;
        let text = io_error_to_string(&error);
        msg.append(text.as_str());
        assert(msg@.subrange(0, prefix.len() as int) =~= prefix);
        CategoryError::Backend(msg)
    }
}

} // verus!
