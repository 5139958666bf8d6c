//! The report renderer's decision layer: which diagnostics appear, in what
//! order, and what each shows - the three-way severity class, the code with
//! its catalog link when the code belongs to the browsable rule catalog, the
//! summary, the "help" notes worth keeping, and the first location. Escape
//! sequences and terminal control are a front-end concern, not decided here.
use vstd::prelude::*;

use crate::diagnostics::Annotation;
use crate::diagnostics::Code;
use crate::diagnostics::Message;
use crate::diagnostics::code_chars;
use crate::ordering::loc_key;
use crate::ordering::sorted_view;
use crate::ordering::sort_messages;
use crate::suppression::SuppressionRule;
use crate::suppression::is_suppressed;
use crate::suppression::ignored;
use crate::text::is_prefix;
use crate::text::has_prefix;
use crate::text::str_eq;

verus! {

/// The three-way severity class a front end styles by.
#[derive(Debug, Clone, Copy, PartialEq, Eq, Structural)]
pub enum SeverityClass {
    Warning,
    Error,
    Other,
}

/// The location reference shown for a diagnostic: the first span's file path
/// and starting position, for the front end to decorate as a link.
#[derive(Debug, Clone, PartialEq, Eq)]
pub struct SourceRef {
    pub file: String,
    pub line: u16,
    pub column: u16,
}

/// One report entry, ready for a front end to style: everything to show for
/// one surviving diagnostic, in display order.
#[derive(Debug, Clone, PartialEq, Eq)]
pub struct RenderedDiagnostic {
    pub level: String,
    pub severity: SeverityClass,
    pub code: Option<String>,
    pub code_link: Option<String>,
    pub message: String,
    pub helps: Vec<String>,
    pub location: Option<SourceRef>,
}

/// The mathematical content of a report entry.
pub struct RenderedView {
    pub level: Seq<char>,
    pub severity: SeverityClass,
    pub code: Option<Seq<char>>,
    pub code_link: Option<Seq<char>>,
    pub message: Seq<char>,
    pub helps: Seq<Seq<char>>,
    pub location: Option<(Seq<char>, u16, u16)>,
}

impl View for RenderedDiagnostic {
    type V = RenderedView;

    open spec fn view(&self) -> RenderedView {
        RenderedView {
            level: self.level@,
            severity: self.severity,
            code: match self.code {
                Some(c) => Some(c@),
                None => None,
            },
            code_link: match self.code_link {
                Some(l) => Some(l@),
                None => None,
            },
            message: self.message@,
            helps: self.helps@.map_values(|h: String| h@),
            location: match self.location {
                Some(l) => Some((l.file@, l.line, l.column)),
                None => None,
            },
        }
    }
}

/// The three-way class of a severity label.
pub open spec fn severity_class(level: Seq<char>) -> SeverityClass {
    if level == "warning"@ {
        SeverityClass::Warning
    } else if level == "error"@ {
        SeverityClass::Error
    } else {
        SeverityClass::Other
    }
}

/// The catalog URL of a catalog rule code: the base catalog URL followed by
/// the rule name, i.e. the code with its catalog namespace prefix removed.
pub open spec fn catalog_link(code: Seq<char>) -> Seq<char> {
    "https://rust-lang.github.io/rust-clippy/master/#/"@ + code.skip("clippy::"@.len() as int)
}

/// Whether a code belongs to the browsable rule catalog.
pub open spec fn in_catalog(code: Seq<char>) -> bool {
    is_prefix("clippy::"@, code)
}

/// Whether a child note is shown: it must be "help"-class and not the
/// boilerplate "see documentation" hint, which is always dropped.
pub open spec fn help_kept(a: Annotation) -> bool {
    a.level@ == "help"@ && !is_prefix("for further information"@, a.message@)
}

/// The help notes shown for a diagnostic, in order.
pub open spec fn help_views(children: Seq<Annotation>) -> Seq<Seq<char>> {
    children.filter(|a: Annotation| help_kept(a)).map_values(|a: Annotation| a.message@)
}

/// What the report shows for one diagnostic.
pub open spec fn render_spec(m: Message) -> RenderedView {
    RenderedView {
        level: m.level@,
        severity: severity_class(m.level@),
        code: code_chars(m.code),
        code_link: match m.code {
            Some(c) => if in_catalog(c.code@) {
                Some(catalog_link(c.code@))
            } else {
                None
            },
            None => None,
        },
        message: m.message@,
        helps: help_views(m.children@),
        location: loc_key(m),
    }
}

/// Whether a diagnostic survives filtering: only diagnostics carrying a code
/// are ever shown, and suppressed ones are hidden.
pub open spec fn keep(m: Message, rules: Seq<SuppressionRule>) -> bool {
    m.code is Some && !is_suppressed(m, rules)
}

/// The diagnostics that survive filtering, in input order.
pub open spec fn kept_view(msgs: Seq<Message>, rules: Seq<SuppressionRule>) -> Seq<Message> {
    msgs.filter(|m: Message| keep(m, rules))
}

/// The whole report: the surviving diagnostics, in display order, each
/// rendered.
pub open spec fn report_view(msgs: Seq<Message>, rules: Seq<SuppressionRule>) -> Seq<
    RenderedView,
> {
    sorted_view(kept_view(msgs, rules)).map_values(|m: Message| render_spec(m))
}

proof fn lemma_filter_singleton(x: Message, pred: spec_fn(Message) -> bool)
    ensures
        seq![x].filter(pred) == if pred(x) {
            seq![x]
        } else {
            Seq::<Message>::empty()
        },
{
    reveal_with_fuel(Seq::filter, 2);
    assert(seq![x].drop_last() =~= Seq::<Message>::empty());
}

/// The diagnostics that survive filtering, in input order: those that carry a
/// code and are not suppressed by the rules.
#[verifier::loop_isolation(false)]
pub fn filter_messages(msgs: Vec<Message>, rules: &Vec<SuppressionRule>) -> (r: Vec<Message>)
    ensures
        r@ == kept_view(msgs@, rules@),
{
    broadcast use vstd::seq_lib::group_filter_ensures;

    let ghost orig: Seq<Message> = msgs@;
    let ghost pred = |m: Message| keep(m, rules@);
    let n = msgs.len();
    let mut msgs = msgs;
    let mut out: Vec<Message> = Vec::new();
    let mut i: usize = 0;
    while msgs.len() > 0
        invariant
            n == orig.len(),
            i + msgs@.len() == orig.len(),
            msgs@ == orig.skip(i as int),
            out@ == orig.take(i as int).filter(pred),
        decreases msgs@.len(),
    {
        let m = msgs.remove(0);
        proof {
            assert(m == orig[i as int]);
        }
        let has_code = match &m.code {
            Some(_) => true,
            None => false,
        };
        let kept = has_code && !ignored(&m, rules);
        proof {
            assert(kept == pred(orig[i as int]));
            assert(orig.take(i + 1) =~= orig.take(i as int) + seq![orig[i as int]]);
            lemma_filter_singleton(orig[i as int], pred);
        }
        if kept {
            out.push(m);
        }
        i = i + 1;
        proof {
            assert(msgs@ =~= orig.skip(i as int));
            assert(out@ =~= orig.take(i as int).filter(pred));
        }
    }
    proof {
        assert(orig.take(i as int) =~= orig);
    }
    out
}

fn clone_code(c: &Option<Code>) -> (r: Option<String>)
    ensures
        match (r, c) {
            (Some(rc), Some(cc)) => rc@ == cc.code@,
            (None, None) => true,
            _ => false,
        },
{
    match c {
        Some(c) => Some(c.code.clone()),
        None => None,
    }
}

/// The report entry for one diagnostic: its severity class, code, catalog
/// link, summary, kept help notes, and first location.
#[verifier::loop_isolation(false)]
pub fn render_message(m: &Message) -> (r: RenderedDiagnostic)
    ensures
        r@ == render_spec(*m),
{
    let severity = if str_eq(m.level.as_str(), "warning") {
        SeverityClass::Warning
    } else if str_eq(m.level.as_str(), "error") {
        SeverityClass::Error
    } else {
        SeverityClass::Other
    };
    let code_link = match &m.code {
        Some(c) => {
            if has_prefix(c.code.as_str(), "clippy::") {
                proof {
                    reveal_strlit("clippy::");
                }
                let name = c.code.as_str().substring_char(8, c.code.as_str().unicode_len());
                let link = String::from_str(
                    "https://rust-lang.github.io/rust-clippy/master/#/",
                ).concat(name);
                proof {
                    assert(name@ =~= c.code@.skip("clippy::"@.len() as int));
                }
                Some(link)
            } else {
                None
            }
        },
        None => None,
    };
    let mut helps: Vec<String> = Vec::new();
    let mut i: usize = 0;
    while i < m.children.len()
        invariant
            i <= m.children@.len(),
            helps@.map_values(|h: String| h@) == help_views(m.children@.take(i as int)),
        decreases m.children@.len() - i,
    {
        broadcast use vstd::seq_lib::group_filter_ensures;

        let a = &m.children[i];
        let kept = str_eq(a.level.as_str(), "help") && !has_prefix(
            a.message.as_str(),
            "for further information",
        );
        proof {
            lemma_help_views_step(m.children@, i as int);
        }
        if kept {
            helps.push(a.message.clone());
        }
        i = i + 1;
        proof {
            assert(helps@.map_values(|h: String| h@) =~= help_views(m.children@.take(i as int)));
        }
    }
    proof {
        assert(m.children@.take(i as int) =~= m.children@);
    }
    let location = if m.spans.len() == 0 {
        None
    } else {
        let s = &m.spans[0];
        Some(SourceRef { file: s.file_name.clone(), line: s.line_start, column: s.column_start })
    };
    RenderedDiagnostic {
        level: m.level.clone(),
        severity,
        code: clone_code(&m.code),
        code_link,
        message: m.message.clone(),
        helps,
        location,
    }
}

proof fn lemma_annotation_filter_singleton(x: Annotation)
    ensures
        seq![x].filter(|a: Annotation| help_kept(a)) == if help_kept(x) {
            seq![x]
        } else {
            Seq::<Annotation>::empty()
        },
{
    reveal_with_fuel(Seq::filter, 2);
    assert(seq![x].drop_last() =~= Seq::<Annotation>::empty());
}

proof fn lemma_help_views_step(children: Seq<Annotation>, i: int)
    requires
        0 <= i < children.len(),
    ensures
        help_views(children.take(i + 1)) == if help_kept(children[i]) {
            help_views(children.take(i)).push(children[i].message@)
        } else {
            help_views(children.take(i))
        },
{
    let hk = |a: Annotation| help_kept(a);
    let pre = children.take(i);
    let x = children[i];
    assert(children.take(i + 1) =~= pre + seq![x]);
    Seq::filter_distributes_over_add(pre, seq![x], hk);
    lemma_annotation_filter_singleton(x);
    if help_kept(x) {
        assert(pre.filter(hk) + seq![x] =~= pre.filter(hk).push(x));
        assert(help_views(children.take(i + 1)) =~= help_views(pre).push(x.message@));
    } else {
        assert(pre.filter(hk) + Seq::<Annotation>::empty() =~= pre.filter(hk));
    }
}

/// The whole report for one run: parse survivors filtered by the rules,
/// sorted into display order, and rendered. The result is a pure function of
/// the diagnostics and rules alone, so re-rendering the same input yields an
/// identical report.
#[verifier::loop_isolation(false)]
pub fn diagnostic_report(msgs: Vec<Message>, rules: &Vec<SuppressionRule>) -> (r: Vec<
    RenderedDiagnostic,
>)
    ensures
        r@.map_values(|d: RenderedDiagnostic| d@) == report_view(msgs@, rules@),
{
    let ghost orig: Seq<Message> = msgs@;
    let kept = filter_messages(msgs, rules);
    let sorted = sort_messages(kept);
    let mut out: Vec<RenderedDiagnostic> = Vec::new();
    let mut i: usize = 0;
    while i < sorted.len()
        invariant
            i <= sorted@.len(),
            sorted@ == sorted_view(kept_view(orig, rules@)),
            out@.map_values(|d: RenderedDiagnostic| d@) == report_view(orig, rules@).take(i as int),
        decreases sorted@.len() - i,
    {
        let entry = render_message(&sorted[i]);
        out.push(entry);
        i = i + 1;
        proof {
            assert(out@.map_values(|d: RenderedDiagnostic| d@) =~= report_view(orig, rules@).take(
                i as int,
            ));
        }
    }
    proof {
        assert(report_view(orig, rules@).take(i as int) =~= report_view(orig, rules@));
    }
    out
}

/// Rendering is a pure function of the sorted, filtered diagnostic list: any
/// two inputs that filter and sort to the same list render to the same
/// report, and in particular re-rendering the same input yields an identical
/// report.
pub proof fn lemma_render_deterministic(
    m1: Seq<Message>,
    m2: Seq<Message>,
    rules: Seq<SuppressionRule>,
)
    requires
        sorted_view(kept_view(m1, rules)) == sorted_view(kept_view(m2, rules)),
    ensures
        report_view(m1, rules) == report_view(m2, rules),
{
}

} // verus!
