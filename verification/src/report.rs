//! The outcome of one attempted invocation of an administrative command and
//! the single report line printed for it.

use vstd::prelude::*;

verus! {

/// What came of trying to run one prepared invocation: either the child
/// could not be spawned at all, or it ran to completion and left byte
/// buffers on its standard output and standard error.
pub enum Outcome {
    /// The spawn itself failed; the payload is the rendered operating-system
    /// error.
    SpawnFailed(String),
    /// The child ran; both streams were captured whole.
    Completed { stdout: Vec<u8>, stderr: Vec<u8> },
}

/// Mathematical model of an [`Outcome`].
pub enum OutcomeView {
    SpawnFailed(Seq<char>),
    Completed { stdout: Seq<u8>, stderr: Seq<u8> },
}

impl View for Outcome {
    type V = OutcomeView;

    open spec fn view(&self) -> OutcomeView {
        match self {
            Outcome::SpawnFailed(e) => OutcomeView::SpawnFailed(e@),
            Outcome::Completed { stdout, stderr } => OutcomeView::Completed {
                stdout: stdout@,
                stderr: stderr@,
            },
        }
    }
}

/// The characters that `String::from_utf8_lossy` decodes from `b`.
pub uninterp spec fn lossy_of(b: Seq<u8>) -> Seq<char>;

/// Relies on `String::from_utf8_lossy`: decodes UTF-8, substituting the
/// replacement character for invalid sequences; the result depends on the
/// bytes alone, and no bytes decode to no characters.
#[verifier::external_body]
fn lossy_utf8(b: &Vec<u8>) -> (r: String)
    ensures
        r@ == lossy_of(b@),
        b@.len() == 0 ==> r@.len() == 0,
{
    String::from_utf8_lossy(b).into_owned()
}

/// `s` with leading and trailing whitespace removed, as `str::trim` removes
/// it.
pub uninterp spec fn trim_of(s: Seq<char>) -> Seq<char>;

/// Relies on `str::trim`: returns the substring left after removing leading
/// and trailing whitespace; the result depends on the characters alone.
#[verifier::external_body]
fn trim_str<'a>(s: &'a str) -> (r: &'a str)
    ensures
        r@ == trim_of(s@),
{
    s.trim()
}

/// The text that formatting `s` with the `Debug` trait produces: the string
/// in double quotes with its special characters escaped.
pub uninterp spec fn debug_str_of(s: Seq<char>) -> Seq<char>;

/// Relies on the `Debug` formatting of `str`: quotes and escapes the
/// string; the result depends on the characters alone.
#[verifier::external_body]
pub(crate) fn debug_format_str(s: &str) -> (r: String)
    ensures
        r@ == debug_str_of(s@),
{
    format!("{:?}", s)
}

/// The single report line for outcome `o`: a `Failed:` line naming the
/// operating-system error when the spawn failed; an ` Error: ` line with the
/// trimmed decoded standard error when the child wrote any bytes there (its
/// standard output is then withheld); and a `Done. Output:` line followed by
/// the decoded standard output contents otherwise. A non-zero exit status
/// alone is not treated as failure.
pub open spec fn report_text(o: OutcomeView) -> Seq<char> {
    match o {
        OutcomeView::SpawnFailed(e) => "Failed: "@ + e,
        OutcomeView::Completed { stdout, stderr } => if stderr.len() > 0 {
            " Error: "@ + trim_of(lossy_of(stderr))
        } else {
            "Done. Output:\n"@ + lossy_of(stdout)
        },
    }
}

/// Renders the one report line printed for outcome `o`.
pub fn render_report(o: &Outcome) -> (r: String)
    ensures
        r@ == report_text(o@),
{
    match o {
        Outcome::SpawnFailed(e) => {
            let mut out = "Failed: ".to_owned();
            out.append(e.as_str());
            out
        },
        Outcome::Completed { stdout, stderr } => {
            if stderr.len() > 0 {
                let text = lossy_utf8(stderr);
                let trimmed = trim_str(text.as_str());
                let mut out = " Error: ".to_owned();
                out.append(trimmed);
                out
            } else {
                let text = lossy_utf8(stdout);
                let mut out = "Done. Output:\n".to_owned();
                out.append(text.as_str());
                out
            }
        },
    }
}

} // verus!
