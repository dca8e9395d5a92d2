use vstd::prelude::*;

verus! {

#[derive(Clone, Copy, Debug, PartialEq, Eq, Structural, PartialOrd, Ord)]
pub enum DiagnosticSeverity {
    Remark,
    Note,
    Warning,
    Error,
}

/// Where a diagnostic points: a source location (by its text), an operation (by its id) or
/// a symbol (by its reference text).
#[derive(Debug)]
pub enum DiagnosticAnchor {
    Source(String),
    Operation(u64),
    Symbol(String),
}

pub enum AnchorView {
    Source(Seq<char>),
    Operation(u64),
    Symbol(Seq<char>),
}

impl View for DiagnosticAnchor {
    type V = AnchorView;

    open spec fn view(&self) -> AnchorView {
        match self {
            DiagnosticAnchor::Source(s) => AnchorView::Source(s@),
            DiagnosticAnchor::Operation(o) => AnchorView::Operation(*o),
            DiagnosticAnchor::Symbol(s) => AnchorView::Symbol(s@),
        }
    }
}

pub open spec fn anchor_view(a: Option<DiagnosticAnchor>) -> Option<AnchorView> {
    match a {
        Some(x) => Some(x@),
        None => None,
    }
}

#[derive(Debug)]
pub struct DiagnosticNote {
    message: String,
    anchor: Option<DiagnosticAnchor>,
}

pub struct NoteView {
    pub message: Seq<char>,
    pub anchor: Option<AnchorView>,
}

impl View for DiagnosticNote {
    type V = NoteView;

    closed spec fn view(&self) -> NoteView {
        NoteView { message: self.message@, anchor: anchor_view(self.anchor) }
    }
}

impl DiagnosticNote {
    pub fn new(message: &str) -> (r: DiagnosticNote)
        ensures
            r@ == (NoteView { message: message@, anchor: None }),
    {
        DiagnosticNote { message: message.to_string(), anchor: None }
    }

    pub fn at(self, anchor: DiagnosticAnchor) -> (r: DiagnosticNote)
        ensures
            r@ == (NoteView { anchor: Some(anchor@), ..self@ }),
    {
        let mut n = self;
        n.anchor = Some(anchor);
        n
    }

    pub fn message(&self) -> (r: &str)
        ensures
            r@ == self@.message,
    {
        self.message.as_str()
    }

    pub fn anchor(&self) -> (r: Option<&DiagnosticAnchor>)
        ensures
            match r {
                Some(a) => self@.anchor == Some(a@),
                None => self@.anchor is None,
            },
    {
        match &self.anchor {
            Some(a) => Some(a),
            None => None,
        }
    }
}

#[derive(Debug)]
pub struct Diagnostic {
    severity: DiagnosticSeverity,
    code: Option<String>,
    message: String,
    pass: Option<&'static str>,
    anchor: Option<DiagnosticAnchor>,
    notes: Vec<DiagnosticNote>,
}

pub struct DiagnosticView {
    pub severity: DiagnosticSeverity,
    pub code: Option<Seq<char>>,
    pub message: Seq<char>,
    pub pass: Option<Seq<char>>,
    pub anchor: Option<AnchorView>,
    pub notes: Seq<NoteView>,
}

impl View for Diagnostic {
    type V = DiagnosticView;

    closed spec fn view(&self) -> DiagnosticView {
        DiagnosticView {
            severity: self.severity,
            code: match self.code {
                Some(c) => Some(c@),
                None => None,
            },
            message: self.message@,
            pass: match self.pass {
                Some(p) => Some(p@),
                None => None,
            },
            anchor: anchor_view(self.anchor),
            notes: self.notes@.map_values(|n: DiagnosticNote| n@),
        }
    }
}

impl Diagnostic {
    pub fn new(severity: DiagnosticSeverity, message: &str) -> (r: Diagnostic)
        ensures
            r@ == (DiagnosticView {
                severity,
                code: None,
                message: message@,
                pass: None,
                anchor: None,
                notes: Seq::empty(),
            }),
    {
        let r = Diagnostic {
            severity,
            code: None,
            message: message.to_string(),
            pass: None,
            anchor: None,
            notes: Vec::new(),
        };
        proof {
            assert(r@.notes =~= Seq::<NoteView>::empty());
        }
        r
    }

    pub fn remark(message: &str) -> (r: Diagnostic)
        ensures
            r@ == (DiagnosticView {
                severity: DiagnosticSeverity::Remark,
                code: None,
                message: message@,
                pass: None,
                anchor: None,
                notes: Seq::empty(),
            }),
    {
        Self::new(DiagnosticSeverity::Remark, message)
    }

    pub fn note(message: &str) -> (r: Diagnostic)
        ensures
            r@ == (DiagnosticView {
                severity: DiagnosticSeverity::Note,
                code: None,
                message: message@,
                pass: None,
                anchor: None,
                notes: Seq::empty(),
            }),
    {
        Self::new(DiagnosticSeverity::Note, message)
    }

    pub fn warning(message: &str) -> (r: Diagnostic)
        ensures
            r@ == (DiagnosticView {
                severity: DiagnosticSeverity::Warning,
                code: None,
                message: message@,
                pass: None,
                anchor: None,
                notes: Seq::empty(),
            }),
    {
        Self::new(DiagnosticSeverity::Warning, message)
    }

    pub fn error(message: &str) -> (r: Diagnostic)
        ensures
            r@ == (DiagnosticView {
                severity: DiagnosticSeverity::Error,
                code: None,
                message: message@,
                pass: None,
                anchor: None,
                notes: Seq::empty(),
            }),
    {
        Self::new(DiagnosticSeverity::Error, message)
    }

    pub fn with_code(self, code: &str) -> (r: Diagnostic)
        ensures
            r@ == (DiagnosticView { code: Some(code@), ..self@ }),
    {
        let mut d = self;
        d.code = Some(code.to_string());
        d
    }

    pub fn at_operation(self, operation: u64) -> (r: Diagnostic)
        ensures
            r@ == (DiagnosticView { anchor: Some(AnchorView::Operation(operation)), ..self@ }),
    {
        let mut d = self;
        d.anchor = Some(DiagnosticAnchor::Operation(operation));
        d
    }

    pub fn at_source(self, location: &str) -> (r: Diagnostic)
        ensures
            r@ == (DiagnosticView { anchor: Some(AnchorView::Source(location@)), ..self@ }),
    {
        let mut d = self;
        d.anchor = Some(DiagnosticAnchor::Source(location.to_string()));
        d
    }

    pub fn at_symbol(self, symbol: &str) -> (r: Diagnostic)
        ensures
            r@ == (DiagnosticView { anchor: Some(AnchorView::Symbol(symbol@)), ..self@ }),
    {
        let mut d = self;
        d.anchor = Some(DiagnosticAnchor::Symbol(symbol.to_string()));
        d
    }

    pub fn with_note(self, note: DiagnosticNote) -> (r: Diagnostic)
        ensures
            r@ == (DiagnosticView { notes: self@.notes.push(note@), ..self@ }),
    {
        let mut d = self;
        d.notes.push(note);
        proof {
            assert(d@.notes =~= self@.notes.push(note@));
        }
        d
    }

    pub fn severity(&self) -> (r: DiagnosticSeverity)
        ensures
            r == self@.severity,
    {
        self.severity
    }

    pub fn code(&self) -> (r: Option<&str>)
        ensures
            match r {
                Some(c) => self@.code == Some(c@),
                None => self@.code is None,
            },
    {
        match &self.code {
            Some(c) => Some(c.as_str()),
            None => None,
        }
    }

    pub fn message(&self) -> (r: &str)
        ensures
            r@ == self@.message,
    {
        self.message.as_str()
    }

    pub fn pass(&self) -> (r: Option<&'static str>)
        ensures
            match r {
                Some(p) => self@.pass == Some(p@),
                None => self@.pass is None,
            },
    {
        self.pass
    }

    pub fn anchor(&self) -> (r: Option<&DiagnosticAnchor>)
        ensures
            match r {
                Some(a) => self@.anchor == Some(a@),
                None => self@.anchor is None,
            },
    {
        match &self.anchor {
            Some(a) => Some(a),
            None => None,
        }
    }

    pub fn notes(&self) -> (r: &[DiagnosticNote])
        ensures
            r@.map_values(|n: DiagnosticNote| n@) == self@.notes,
    {
        self.notes.as_slice()
    }

    /// Names the pass that emitted the diagnostic, unless one is already named.
    pub fn attach_pass(&mut self, pass: &'static str)
        ensures
            final(self)@ == (DiagnosticView {
                pass: if old(self)@.pass is None {
                    Some(pass@)
                } else {
                    old(self)@.pass
                },
                ..old(self)@
            }),
    {
        if self.pass.is_none() {
            self.pass = Some(pass);
        }
    }
}

/// Number of error diagnostics.
pub open spec fn count_errors(ds: Seq<DiagnosticView>) -> nat
    decreases ds.len(),
{
    if ds.len() == 0 {
        0
    } else {
        count_errors(ds.drop_last()) + if ds.last().severity == DiagnosticSeverity::Error {
            1nat
        } else {
            0nat
        }
    }
}

/// The diagnostics emitted so far, with a running count of errors.
#[derive(Debug)]
pub struct DiagnosticEngine {
    diagnostics: Vec<Diagnostic>,
    error_count: usize,
}

impl View for DiagnosticEngine {
    type V = Seq<DiagnosticView>;

    closed spec fn view(&self) -> Seq<DiagnosticView> {
        self.diagnostics@.map_values(|d: Diagnostic| d@)
    }
}

impl DiagnosticEngine {
    /// The running count is the number of error diagnostics.
    pub closed spec fn wf(&self) -> bool {
        self.error_count == count_errors(self@)
    }

    pub fn new() -> (r: DiagnosticEngine)
        ensures
            r.wf(),
            r@ == Seq::<DiagnosticView>::empty(),
    {
        let r = DiagnosticEngine { diagnostics: Vec::new(), error_count: 0 };
        proof {
            assert(r@ =~= Seq::<DiagnosticView>::empty());
        }
        r
    }

    /// Appends a diagnostic. The number of diagnostics must fit in a `usize`.
    pub fn emit(&mut self, diagnostic: Diagnostic)
        requires
            old(self).wf(),
            old(self)@.len() < usize::MAX,
        ensures
            final(self).wf(),
            final(self)@ == old(self)@.push(diagnostic@),
    {
        proof {
            lemma_count_errors_bound(self@);
        }
        if diagnostic.severity == DiagnosticSeverity::Error {
            self.error_count = self.error_count + 1;
        }
        self.diagnostics.push(diagnostic);
        proof {
            assert(self@ =~= old(self)@.push(diagnostic@));
            assert(self@.drop_last() =~= old(self)@);
        }
    }

    pub fn diagnostics(&self) -> (r: &[Diagnostic])
        ensures
            r@.map_values(|d: Diagnostic| d@) == self@,
    {
        self.diagnostics.as_slice()
    }

    pub fn error_count(&self) -> (r: usize)
        requires
            self.wf(),
        ensures
            r == count_errors(self@),
    {
        self.error_count
    }

    pub fn has_errors(&self) -> (r: bool)
        requires
            self.wf(),
        ensures
            r == (count_errors(self@) > 0),
    {
        self.error_count > 0
    }

    pub fn into_diagnostics(self) -> (r: Vec<Diagnostic>)
        ensures
            r@.map_values(|d: Diagnostic| d@) == self@,
    {
        self.diagnostics
    }
}

pub proof fn lemma_count_errors_bound(ds: Seq<DiagnosticView>)
    ensures
        count_errors(ds) <= ds.len(),
    decreases ds.len(),
{
    if ds.len() > 0 {
        lemma_count_errors_bound(ds.drop_last());
    }
}

} // verus!
