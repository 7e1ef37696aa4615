//! Error values that carry a fully rendered message, optionally
//! annotated with the source location that raised them.

use vstd::prelude::*;

verus! {

/// An error value: a fully rendered, human-readable message.
pub struct ErrorValue {
    message: String,
}

impl View for ErrorValue {
    type V = Seq<char>;

    closed spec fn view(&self) -> Seq<char> {
        self.message@
    }
}

impl ErrorValue {
    /// Wraps an already rendered message.
    pub fn from_message(message: String) -> (r: ErrorValue)
        ensures
            r@ == message@,
    {
        ErrorValue { message }
    }

    /// The rendered message.
    pub fn message(&self) -> (r: &str)
        ensures
            r@ == self@,
    {
        self.message.as_str()
    }

    /// The rendered message, as an owned string.
    pub fn into_message(self) -> (r: String)
        ensures
            r@ == self@,
    {
        self.message
    }
}

/// The character for a single decimal digit.
pub open spec fn digit_char(d: nat) -> char {
    if d == 0 {
        '0'
    } else if d == 1 {
        '1'
    } else if d == 2 {
        '2'
    } else if d == 3 {
        '3'
    } else if d == 4 {
        '4'
    } else if d == 5 {
        '5'
    } else if d == 6 {
        '6'
    } else if d == 7 {
        '7'
    } else if d == 8 {
        '8'
    } else {
        '9'
    }
}

/// The usual decimal rendering of a natural number, most significant
/// digit first and without leading zeros (except for zero itself).
pub open spec fn decimal_digits(n: nat) -> Seq<char>
    decreases n,
{
    if n < 10 {
        seq![digit_char(n)]
    } else {
        decimal_digits(n / 10).push(digit_char(n % 10))
    }
}

fn digit_str(d: u64) -> (r: &'static str)
    requires
        d < 10,
    ensures
        r@ == seq![digit_char(d as nat)],
{
    proof {
        reveal_strlit("0");
        reveal_strlit("1");
        reveal_strlit("2");
        reveal_strlit("3");
        reveal_strlit("4");
        reveal_strlit("5");
        reveal_strlit("6");
        reveal_strlit("7");
        reveal_strlit("8");
        reveal_strlit("9");
    }
    if d == 0 {
        "0"
    } else if d == 1 {
        "1"
    } else if d == 2 {
        "2"
    } else if d == 3 {
        "3"
    } else if d == 4 {
        "4"
    } else if d == 5 {
        "5"
    } else if d == 6 {
        "6"
    } else if d == 7 {
        "7"
    } else if d == 8 {
        "8"
    } else {
        "9"
    }
}

/// Renders a number in decimal.
pub fn u64_to_string(n: u64) -> (r: String)
    ensures
        r@ == decimal_digits(n as nat),
{
    let mut digits: Vec<u64> = Vec::new();
    let mut m: u64 = n;
    proof {
        assert(decimal_digits(n as nat) =~= decimal_digits(m as nat) + digits@.map_values(
            |d: u64| digit_char(d as nat),
        ).reverse());
    }
    loop
        invariant_except_break
            forall|k: int| 0 <= k < digits@.len() ==> digits@[k] < 10,
            decimal_digits(n as nat) == decimal_digits(m as nat) + digits@.map_values(
                |d: u64| digit_char(d as nat),
            ).reverse(),
        ensures
            forall|k: int| 0 <= k < digits@.len() ==> digits@[k] < 10,
            decimal_digits(n as nat) == digits@.map_values(|d: u64| digit_char(d as nat)).reverse(),
        decreases m,
    {
        let d: u64 = m % 10;
        let ghost before = digits@;
        digits.push(d);
        proof {
            let f = |d: u64| digit_char(d as nat);
            assert(digits@.map_values(f) =~= before.map_values(f).push(digit_char(d as nat)));
            assert(digits@.map_values(f).reverse() =~= seq![digit_char(d as nat)]
                + before.map_values(f).reverse());
        }
        if m < 10 {
            proof {
                assert(decimal_digits(m as nat) == seq![digit_char(d as nat)]);
                assert(decimal_digits(n as nat) =~= digits@.map_values(
                    |d: u64| digit_char(d as nat),
                ).reverse());
            }
            break;
        }
        proof {
            assert(decimal_digits(m as nat) == decimal_digits((m as nat) / 10).push(
                digit_char((m as nat) % 10),
            ));
            assert(decimal_digits((m as nat) / 10).push(digit_char(d as nat))
                =~= decimal_digits((m as nat) / 10) + seq![digit_char(d as nat)]);
        }
        m = m / 10;
    }
    let ghost rendered = decimal_digits(n as nat);
    let mut r = String::new();
    let mut i: usize = digits.len();
    proof {
        assert(digits@.map_values(|d: u64| digit_char(d as nat)).reverse().take(0) =~= Seq::<
            char,
        >::empty());
    }
    while i > 0
        invariant
            i <= digits@.len(),
            forall|k: int| 0 <= k < digits@.len() ==> digits@[k] < 10,
            rendered == digits@.map_values(|d: u64| digit_char(d as nat)).reverse(),
            r@ == rendered.take(digits@.len() - i),
        decreases i,
    {
        i = i - 1;
        let piece = digit_str(digits[i]);
        r.append(piece);
        proof {
            let rev = digits@.map_values(|d: u64| digit_char(d as nat)).reverse();
            assert(rev[digits@.len() - 1 - i] == digit_char(digits@[i as int] as nat));
            assert(rev.take(digits@.len() - i) =~= rev.take(digits@.len() - i - 1).push(
                rev[digits@.len() - 1 - i],
            ));
        }
    }
    proof {
        assert(r@ =~= rendered);
    }
    r
}

/// The rendered text of an error raised with `message` at `file:line`.
/// In a debug build the source location is appended on a line of its
/// own; in a release build the text is the message alone.
pub open spec fn error_text(message: Seq<char>, file: Seq<char>, line: u64, debug: bool) -> Seq<
    char,
> {
    if debug {
        message + "\nRaised at file: "@ + file + seq![':'] + decimal_digits(line as nat)
            + seq!['.']
    } else {
        message
    }
}

/// Builds an error value from a message and the source location that
/// raised it.  `debug` says whether the binary was built in a debug
/// configuration: when it is true the location is woven into the
/// rendered text, otherwise the text is the message alone.
pub fn create_error(message: &str, file: &str, line: u64, debug: bool) -> (r: ErrorValue)
    ensures
        r@ == error_text(message@, file@, line, debug),
{
    let mut s = String::from_str(message);
    if debug {
        s.append("\nRaised at file: ");
        s.append(file);
        s.append(":");
        let rendered_line = u64_to_string(line);
        s.append(rendered_line.as_str());
        s.append(".");
        proof {
            reveal_strlit(":");
            reveal_strlit(".");
            assert(s@ =~= error_text(message@, file@, line, debug));
        }
    }
    ErrorValue { message: s }
}

/// Builds an already failed result, for the places where a failure is
/// produced in expression position rather than by an early return.  The
/// error value is the one `create_error` would build.
pub fn report_error<T>(message: &str, file: &str, line: u64, debug: bool) -> (r: Result<
    T,
    ErrorValue,
>)
    ensures
        r matches Err(e) && e@ == error_text(message@, file@, line, debug),
{
    let report = create_error(message, file, line, debug);
    Err(report)
}

/// Promotion of a missing optional value into an error.
pub trait OptionExt<T>: Sized {
    /// The optional value that the promotion examines.
    spec fn optional(self) -> Option<T>;

    /// A present value becomes a success; an absent one becomes a
    /// failure whose rendered message is exactly `message`, with no
    /// source location appended (deliberately unlike `create_error`).
    fn ok_or_error(self, message: &str) -> (r: Result<T, ErrorValue>)
        ensures
            self.optional() matches Some(v) ==> r == Ok::<T, ErrorValue>(v),
            self.optional() is None ==> (r matches Err(e) && e@ == message@),
    ;
}

impl<T> OptionExt<T> for Option<T> {
    open spec fn optional(self) -> Option<T> {
        self
    }

    fn ok_or_error(self, message: &str) -> (r: Result<T, ErrorValue>) {
        match self {
            Some(ok) => Ok(ok),
            None => Err(ErrorValue::from_message(String::from_str(message))),
        }
    }
}

/// Switches the process over to the prettier error reports.  Safe to
/// call any number of times: a failed installation (as on every call
/// after the first) is discarded, never surfaced to the caller.
///
/// Relies on color_eyre::install: it registers eyre's report hooks
/// process-wide once, and returns an error, rather than panicking, when
/// they were already registered; the result is discarded here.
#[verifier::external_body]
pub fn config() {
    let _ = color_eyre::install();
}

/// Whatever the build configuration, file and line, the rendered text
/// of an error begins with the message it was raised with.
pub proof fn lemma_error_text_starts_with_message(
    message: Seq<char>,
    file: Seq<char>,
    line: u64,
    debug: bool,
)
    ensures
        error_text(message, file, line, debug).len() >= message.len(),
        error_text(message, file, line, debug).take(message.len() as int) == message,
{
    assert(error_text(message, file, line, debug).take(message.len() as int) =~= message);
}

} // verus!
