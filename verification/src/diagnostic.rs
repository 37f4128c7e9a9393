//! Diagnostics: what the renderer reports of a token stream that it had to
//! mend. None of them stops a rendering.

use vstd::prelude::*;

verus! {

/// An anomaly met while rendering.
#[derive(Clone, Debug, PartialEq, Eq)]
pub enum Diagnostic {
    /// A span opened with a category that the style table has no entry for.
    /// The span was given the table's fallback treatment.
    UnknownCategory { line: usize, category: String },
    /// A span was closed on the given line while none was open. The event was
    /// passed over.
    UnbalancedTokenStream { line: usize },
}

/// A diagnostic as a mathematical value.
pub enum DiagnosticView {
    UnknownCategory { line: nat, category: Seq<char> },
    UnbalancedTokenStream { line: nat },
}

impl View for Diagnostic {
    type V = DiagnosticView;

    open spec fn view(&self) -> DiagnosticView {
        match self {
            Diagnostic::UnknownCategory { line, category } => DiagnosticView::UnknownCategory {
                line: *line as nat,
                category: category@,
            },
            Diagnostic::UnbalancedTokenStream { line } => DiagnosticView::UnbalancedTokenStream {
                line: *line as nat,
            },
        }
    }
}

impl DeepView for Diagnostic {
    type V = DiagnosticView;

    open spec fn deep_view(&self) -> DiagnosticView {
        self@
    }
}

} // verus!
