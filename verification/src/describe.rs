use crate::decode::{DecodeError, DecodeErrorKind, Failure, PathStep, Step};
use crate::model::Text;
use vstd::prelude::*;
use vstd::string::StringExecFns;

verus! {

/// The character that writes the digit `d`.
pub open spec fn digit_char(d: nat) -> char {
    if d == 0 {
        '0'
    } else if d == 1 {
        '1'
    } else if d == 2 {
        '2'
    } else if d == 3 {
        '3'
    } else if d == 4 {
        '4'
    } else if d == 5 {
        '5'
    } else if d == 6 {
        '6'
    } else if d == 7 {
        '7'
    } else if d == 8 {
        '8'
    } else {
        '9'
    }
}

/// `n` in decimal digits, without leading zeros.
pub open spec fn decimal(n: nat) -> Text
    decreases n,
{
    if n < 10 {
        seq![digit_char(n)]
    } else {
        decimal(n / 10).push(digit_char(n % 10))
    }
}

/// What was wrong, in words.
pub open spec fn kind_text(kind: DecodeErrorKind) -> Text {
    match kind {
        DecodeErrorKind::NotABool => "not a boolean"@,
        DecodeErrorKind::NotAString => "not a string"@,
        DecodeErrorKind::NotAnInteger => "not an integer"@,
        DecodeErrorKind::NotANumber => "not a number"@,
        DecodeErrorKind::NotATable => "not a table"@,
        DecodeErrorKind::NotAnArray => "not an array"@,
        DecodeErrorKind::WrongLength => "an array of the wrong length"@,
        DecodeErrorKind::MissingKey => "a missing key"@,
        DecodeErrorKind::NoShapeFits => "of no shape that fits"@,
    }
}

/// A step as the source would write it: `.key` or `[index]`.
pub open spec fn step_text(step: Step) -> Text {
    match step {
        Step::Key(k) => "."@ + k,
        Step::Index(i) => "["@ + decimal(i as nat) + "]"@,
    }
}

/// The first `n` steps of `path`, written one after the other.
pub open spec fn path_text(path: Seq<Step>, n: nat) -> Text
    decreases n,
{
    if n == 0 {
        Seq::empty()
    } else {
        path_text(path, (n - 1) as nat) + step_text(path[n - 1])
    }
}

/// A failure in words: where the value stands that was wrong, and what was wrong with
/// it.
pub open spec fn description(f: Failure) -> Text {
    "value"@ + path_text(f.path, f.path.len()) + " is "@ + kind_text(f.kind)
}

/// Writes `n` in decimal digits at the end of `s`.
fn push_decimal(s: &mut String, n: usize)
    ensures
        final(s)@ == old(s)@ + decimal(n as nat),
    decreases n,
{
    if n >= 10 {
        push_decimal(s, n / 10);
    }
    let d = n % 10;
    let c = if d == 0 {
        '0'
    } else if d == 1 {
        '1'
    } else if d == 2 {
        '2'
    } else if d == 3 {
        '3'
    } else if d == 4 {
        '4'
    } else if d == 5 {
        '5'
    } else if d == 6 {
        '6'
    } else if d == 7 {
        '7'
    } else if d == 8 {
        '8'
    } else {
        '9'
    };
    s.push(c);
    assert(s@ =~= old(s)@ + decimal(n as nat));
}

fn kind_words(kind: DecodeErrorKind) -> (s: &'static str)
    ensures
        s@ == kind_text(kind),
{
    match kind {
        DecodeErrorKind::NotABool => "not a boolean",
        DecodeErrorKind::NotAString => "not a string",
        DecodeErrorKind::NotAnInteger => "not an integer",
        DecodeErrorKind::NotANumber => "not a number",
        DecodeErrorKind::NotATable => "not a table",
        DecodeErrorKind::NotAnArray => "not an array",
        DecodeErrorKind::WrongLength => "an array of the wrong length",
        DecodeErrorKind::MissingKey => "a missing key",
        DecodeErrorKind::NoShapeFits => "of no shape that fits",
    }
}

impl DecodeError {
    /// The failure in words, with the way to the value that was wrong.
    pub fn describe(&self) -> (s: String)
        ensures
            s@ == description(self.deep_view()),
    {
        let ghost path = self.path.deep_view();
        let mut s = "value".to_owned();
        let mut i: usize = 0;
        while i < self.path.len()
            invariant
                i <= self.path@.len(),
                path == self.path.deep_view(),
                s@ == "value"@ + path_text(path, i as nat),
            decreases self.path@.len() - i,
        {
            let ghost before = s@;
            assert(path[i as int] == self.path@[i as int].deep_view());
            match &self.path[i] {
                PathStep::Key(k) => {
                    s.append(".");
                    s.append(k.as_str());
                    assert(s@ =~= before + step_text(path[i as int]));
                },
                PathStep::Index(n) => {
                    s.append("[");
                    push_decimal(&mut s, *n);
                    s.append("]");
                    assert(s@ =~= before + step_text(path[i as int]));
                },
            }
            assert(s@ =~= "value"@ + path_text(path, (i + 1) as nat));
            i += 1;
        }
        s.append(" is ");
        s.append(kind_words(self.kind));
        s
    }
}

} // verus!
