use vstd::prelude::*;
use crate::text::concat_str;

verus! {

/// The abstract content of a report: a flag and two message lists.
pub struct ReportingView {
    pub error_status: bool,
    pub warnings: Seq<Seq<char>>,
    pub errors: Seq<Seq<char>>,
}

/// The text of each string in a list.
pub open spec fn texts(v: Seq<String>) -> Seq<Seq<char>> {
    v.map_values(|s: String| s@)
}

/// Collects the errors and warnings found while compiling.
#[derive(Debug)]
pub struct Reporting {
    error_status: bool,
    warnings: Vec<String>,
    errors: Vec<String>,
}

impl View for Reporting {
    type V = ReportingView;

    closed spec fn view(&self) -> ReportingView {
        ReportingView {
            error_status: self.error_status,
            warnings: texts(self.warnings@),
            errors: texts(self.errors@),
        }
    }
}

/// Names what `<str as Debug>::fmt` writes for `s`: the text in double quotes, with the
/// characters that need it written as escapes.
pub uninterp spec fn debug_quoted(s: Seq<char>) -> Seq<char>;

/// `format!("{:?}", s)`: the Debug form of a string. Its result is taken to be
/// `debug_quoted(s)`; what that is character by character is not stated.
#[verifier::external_body]
fn debug_str(s: &str) -> (r: String)
    ensures
        r@ == debug_quoted(s@),
{
    format!("{:?}", s)
}

/// The Debug forms of a list of strings, joined by `, `.
pub open spec fn joined_debug(v: Seq<Seq<char>>) -> Seq<char>
    decreases v.len(),
{
    if v.len() == 0 {
        Seq::empty()
    } else if v.len() == 1 {
        debug_quoted(v[0])
    } else {
        joined_debug(v.drop_last()) + ", "@ + debug_quoted(v.last())
    }
}

/// The Debug form of a list of strings: their Debug forms in square brackets.
pub open spec fn list_debug(v: Seq<Seq<char>>) -> Seq<char> {
    "["@ + joined_debug(v) + "]"@
}

/// The Debug form of a list of strings.
fn debug_list(v: &Vec<String>) -> (r: String)
    ensures
        r@ == list_debug(texts(v@)),
{
    let mut r = String::from_str("[");
    let mut i: usize = 0;
    while i < v.len()
        invariant
            i <= v.len(),
            r@ == "["@ + joined_debug(texts(v@.take(i as int))),
        decreases v.len() - i,
    {
        let ghost before = r@;
        if i > 0 {
            r.append(", ");
        }
        let d = debug_str(v[i].as_str());
        r.append(d.as_str());
        proof {
            let t = texts(v@.take(i + 1));
            assert(t.drop_last() =~= texts(v@.take(i as int)));
            assert(t.last() == v@[i as int]@);
            if i == 0 {
                assert(t.len() == 1);
                assert(r@ =~= "["@ + joined_debug(t));
            } else {
                assert(r@ =~= "["@ + joined_debug(t));
            }
        }
        i = i + 1;
    }
    assert(v@.take(v.len() as int) =~= v@);
    r.append("]");
    r
}

/// The text of a boolean, as Rust writes it.
pub open spec fn bool_text(b: bool) -> Seq<char> {
    if b {
        "true"@
    } else {
        "false"@
    }
}

/// The text of a boolean, as Rust writes it.
pub fn bool_string(b: bool) -> (r: String)
    ensures
        r@ == bool_text(b),
{
    if b {
        String::from_str("true")
    } else {
        String::from_str("false")
    }
}

/// A copy of a list of strings.
fn copy_strings(v: &Vec<String>) -> (r: Vec<String>)
    ensures
        texts(r@) == texts(v@),
{
    let mut r: Vec<String> = Vec::new();
    let mut i: usize = 0;
    while i < v.len()
        invariant
            i <= v.len(),
            texts(r@) == texts(v@.take(i as int)),
        decreases v.len() - i,
    {
        let ghost before = r@;
        r.push(v[i].clone());
        assert(v@.take(i + 1) =~= v@.take(i as int).push(v@[i as int]));
        assert(texts(r@) =~= texts(before).push(v@[i as int]@));
        assert(texts(v@.take(i + 1)) =~= texts(v@.take(i as int)).push(v@[i as int]@));
        i = i + 1;
    }
    assert(v@.take(v.len() as int) =~= v@);
    r
}

impl Clone for Reporting {
    fn clone(&self) -> (r: Reporting)
        ensures
            r@ == self@,
    {
        Reporting {
            error_status: self.error_status,
            warnings: copy_strings(&self.warnings),
            errors: copy_strings(&self.errors),
        }
    }
}

impl Reporting {
    /// The content of an empty report.
    pub open spec fn new_view() -> ReportingView {
        ReportingView { error_status: false, warnings: Seq::empty(), errors: Seq::empty() }
    }

    /// A report with no errors and no warnings.
    pub fn new() -> (r: Reporting)
        ensures
            r@ == Reporting::new_view(),
    {
        let r = Reporting { error_status: false, warnings: Vec::new(), errors: Vec::new() };
        assert(texts(r.warnings@) =~= Seq::empty());
        assert(texts(r.errors@) =~= Seq::empty());
        r
    }

    /// Appends an error message.
    pub fn reportError(&mut self, message: String)
        ensures
            final(self)@ == (ReportingView { errors: old(self)@.errors.push(message@), ..old(self)@ }),
    {
        let m = message.clone();
        self.errors.push(m);
        assert(texts(self.errors@) =~= texts(old(self).errors@).push(message@));
    }

    /// Appends a warning message.
    pub fn reportWarning(&mut self, message: String)
        ensures
            final(self)@ == (ReportingView { warnings: old(self)@.warnings.push(message@), ..old(self)@ }),
    {
        let m = message.clone();
        self.warnings.push(m);
        assert(texts(self.warnings@) =~= texts(old(self).warnings@).push(message@));
    }

    /// The content of a report that holds one error and nothing else.
    pub open spec fn error_view(message: Seq<char>) -> ReportingView {
        ReportingView { error_status: false, warnings: Seq::empty(), errors: seq![message] }
    }

    /// A report holding the one error `error`.
    pub fn from(error: String) -> (r: Reporting)
        ensures
            r@ == Reporting::error_view(error@),
    {
        let mut reporting = Reporting::new();
        reporting.reportError(error);
        assert(reporting@.errors =~= seq![error@]);
        reporting
    }

    /// Whether the error flag is set.
    pub fn error_status(&self) -> (r: bool)
        ensures
            r == self@.error_status,
    {
        self.error_status
    }

    /// The error messages, in the order they were reported.
    pub fn errors(&self) -> (r: &Vec<String>)
        ensures
            texts(r@) == self@.errors,
    {
        &self.errors
    }

    /// The warning messages, in the order they were reported.
    pub fn warnings(&self) -> (r: &Vec<String>)
        ensures
            texts(r@) == self@.warnings,
    {
        &self.warnings
    }

    /// How a report is shown: its errors, then its warnings.
    pub open spec fn shown(r: ReportingView) -> Seq<char> {
        "Errors: "@ + list_debug(r.errors) + ", Warnings: "@ + list_debug(r.warnings)
    }

    /// The Debug form of a report.
    pub open spec fn debug_form(r: ReportingView) -> Seq<char> {
        "Reporting { error_status: "@ + bool_text(r.error_status) + ", warnings: "@ + list_debug(r.warnings)
            + ", errors: "@ + list_debug(r.errors) + " }"@
    }

    /// This report shown with its errors, then its warnings.
    pub fn to_string(&self) -> (r: String)
        ensures
            r@ == Reporting::shown(self@),
    {
        let a = concat_str("Errors: ", debug_list(&self.errors).as_str());
        let b = concat_str(a.as_str(), ", Warnings: ");
        let r = concat_str(b.as_str(), debug_list(&self.warnings).as_str());
        assert(r@ =~= Reporting::shown(self@));
        r
    }

    /// The Debug form of this report.
    pub fn debug_text(&self) -> (r: String)
        ensures
            r@ == Reporting::debug_form(self@),
    {
        let a = concat_str("Reporting { error_status: ", bool_string(self.error_status).as_str());
        let b = concat_str(a.as_str(), ", warnings: ");
        let c = concat_str(b.as_str(), debug_list(&self.warnings).as_str());
        let d = concat_str(c.as_str(), ", errors: ");
        let e = concat_str(d.as_str(), debug_list(&self.errors).as_str());
        let r = concat_str(e.as_str(), " }");
        assert(r@ =~= Reporting::debug_form(self@));
        r
    }
}

/// The first form of the report: a flag alone. Its messages are printed as they come.
pub struct reporting {
    pub errorStatus: bool,
}

impl reporting {
    /// Clears this report's flag and gives a new report with the flag clear.
    pub fn new(&mut self) -> (r: reporting)
        ensures
            !final(self).errorStatus,
            !r.errorStatus,
    {
        self.errorStatus = false;
        reporting { errorStatus: false }
    }

    /// The line printed for an error.
    pub fn reportError(message: String) -> (r: String)
        ensures
            r@ == "reporting error: "@ + message@,
    {
        concat_str("reporting error: ", message.as_str())
    }

    /// The line printed for a warning.
    pub fn reportWarning(message: String) -> (r: String)
        ensures
            r@ == "reporting warning: "@ + message@,
    {
        concat_str("reporting warning: ", message.as_str())
    }
}

} // verus!
