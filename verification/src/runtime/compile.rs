use vstd::prelude::*;

verus! {

/// Severity of a diagnostic.
#[derive(PartialEq, Eq, Structural, Debug)]
pub enum DiagnosticLevel {
    Error,
    Warning,
    Note,
}

impl Clone for DiagnosticLevel {
    fn clone(&self) -> (r: Self)
        ensures
            r == *self,
    {
        match self {
            DiagnosticLevel::Error => DiagnosticLevel::Error,
            DiagnosticLevel::Warning => DiagnosticLevel::Warning,
            DiagnosticLevel::Note => DiagnosticLevel::Note,
        }
    }
}

/// One finding about a project.
#[derive(Debug)]
pub struct Diagnostic {
    pub level: DiagnosticLevel,
    /// Stable machine-readable code.
    pub code: String,
    /// The file concerned, if any.
    pub path: Option<String>,
    pub message: String,
}

/// The findings of compiling a project.
#[derive(Debug)]
pub struct CompileReport {
    diagnostics: Vec<Diagnostic>,
}

/// Whether some diagnostic in `ds` is an error.
pub open spec fn any_error(ds: Seq<Diagnostic>) -> bool {
    exists|i: int| 0 <= i < ds.len() && ds[i].level == DiagnosticLevel::Error
}

impl CompileReport {
    /// The diagnostics, in order.
    pub closed spec fn items(&self) -> Seq<Diagnostic> {
        self.diagnostics@
    }

    /// The diagnostics, in order.
    pub fn diagnostics(&self) -> (r: &Vec<Diagnostic>)
        ensures
            r@ == self.items(),
    {
        &self.diagnostics
    }

    /// Whether some diagnostic is an error.
    pub fn has_errors(&self) -> (r: bool)
        ensures
            r == any_error(self.items()),
    {
        let mut i: usize = 0;
        while i < self.diagnostics.len()
            invariant
                i <= self.diagnostics@.len(),
                forall|k: int| 0 <= k < i ==> self.diagnostics@[k].level != DiagnosticLevel::Error,
            decreases self.diagnostics@.len() - i,
        {
            if self.diagnostics[i].level == DiagnosticLevel::Error {
                return true;
            }
            i = i + 1;
        }
        false
    }
}

/// The report on the project at `root`, given the outcome of loading it
/// (its error rendered with its full cause chain): one note
/// `compile-ok` saying the project compiled, or one error
/// `compile-failed` carrying the load error.
pub fn compile_project(root: &str, loaded: Result<(), String>) -> (r: CompileReport)
    ensures
        r.items().len() == 1,
        any_error(r.items()) <==> loaded is Err,
        r.items()[0].path is None,
        match loaded {
            Ok(()) => r.items()[0].level == DiagnosticLevel::Note && r.items()[0].code@ == "compile-ok"@
                && r.items()[0].message@ == "project compiled: "@ + root@,
            Err(m) => r.items()[0].level == DiagnosticLevel::Error && r.items()[0].code@ == "compile-failed"@
                && r.items()[0].message@ == m@,
        },
{
    let diagnostic = match loaded {
        Ok(()) => {
            let mut message = "project compiled: ".to_owned();
            message.append(root);
            Diagnostic { level: DiagnosticLevel::Note, code: "compile-ok".to_owned(), path: None, message }
        },
        Err(m) => Diagnostic {
            level: DiagnosticLevel::Error,
            code: "compile-failed".to_owned(),
            path: None,
            message: m,
        },
    };
    let mut diagnostics = Vec::new();
    diagnostics.push(diagnostic);
    let r = CompileReport { diagnostics };
    assert(r.items()[0] == r.items()[0]);
    r
}

} // verus!
