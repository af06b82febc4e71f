//! Conversion of compiler diagnostics to protocol diagnostics: position
//! mapping, severity and code mapping, location building, the per-message
//! diagnostic converter, and grouping by file.

use crate::diag::DiagnosticId;
use crate::diag::DiagnosticIdView;
use crate::diag::KclDiagnostic;
use crate::diag::KclDiagnosticView;
use crate::diag::KclPos;
use crate::diag::KclPosView;
use crate::diag::Level;
use crate::diag::Message;
use crate::diag::MessageView;
use crate::protocol::Diagnostic;
use crate::protocol::DiagnosticRelatedInformation;
use crate::protocol::DiagnosticSeverity;
use crate::protocol::DiagnosticView;
use crate::protocol::Location;
use crate::protocol::LocationView;
use crate::protocol::NumberOrString;
use crate::protocol::NumberOrStringView;
use crate::protocol::Position;
use crate::protocol::Range;
use crate::protocol::RelatedInformationView;
use crate::protocol::ReplacementData;
use crate::protocol::ReplacementDataView;
use crate::uri::adjust_canonicalization;
use crate::uri::canon_of;
use crate::uri::normalized_uri_of;
use crate::uri::url_from_path;
use vstd::prelude::*;
use vstd::string::StrSliceExecFns;

verus! {

/// The zero-based protocol line of a one-based source line: one less,
/// clamped to zero on underflow (truncated into the protocol type).
pub open spec fn lsp_line(line: u64) -> u32 {
    if line >= 1 {
        ((line - 1) as u64) as u32
    } else {
        0
    }
}

/// The protocol character of an optional source column: the column when
/// present, zero otherwise (truncated into the protocol type).
pub open spec fn lsp_character(column: Option<u64>) -> u32 {
    match column {
        Option::Some(c) => c as u32,
        Option::None => 0,
    }
}

/// The protocol position of a source coordinate.
pub open spec fn lsp_pos_of(p: KclPosView) -> Position {
    Position { line: lsp_line(p.line), character: lsp_character(p.column) }
}

/// The protocol range of a source span.
pub open spec fn lsp_range_of(start: KclPosView, end: KclPosView) -> Range {
    Range { start: lsp_pos_of(start), end: lsp_pos_of(end) }
}

/// Convert a one-based source coordinate to a zero-based protocol position.
pub fn lsp_pos(pos: &KclPos) -> (r: Position)
    ensures
        r == lsp_pos_of(pos@),
{
    let line: u64 = if pos.line >= 1 {
        pos.line - 1
    } else {
        0
    };
    let column: u64 = match pos.column {
        Option::Some(c) => c,
        Option::None => 0,
    };
    Position { line: line as u32, character: column as u32 }
}

/// Convert a file path and a source span to a protocol location; `None`
/// when the path cannot be converted to a URI.
pub fn lsp_location(file_path: String, start: &KclPos, end: &KclPos) -> (r: Option<Location>)
    ensures
        match r {
            Option::Some(loc) => normalized_uri_of(file_path@) == Option::Some(loc@.uri)
                && loc@.range == lsp_range_of(start@, end@),
            Option::None => normalized_uri_of(file_path@) is None,
        },
{
    match url_from_path(file_path.as_str()) {
        Result::Ok(uri) => Option::Some(
            Location { uri, range: Range { start: lsp_pos(start), end: lsp_pos(end) } },
        ),
        Result::Err(_) => Option::None,
    }
}

/// The protocol severity of a compiler severity level.
pub open spec fn severity_of(level: Level) -> DiagnosticSeverity {
    match level {
        Level::Error => DiagnosticSeverity::Error,
        Level::Warning => DiagnosticSeverity::Warning,
        Level::Note => DiagnosticSeverity::Hint,
        Level::Suggestions => DiagnosticSeverity::Hint,
    }
}

/// Convert a compiler severity level to the protocol diagnostic severity.
pub fn kcl_err_level_to_severity(level: Level) -> (r: DiagnosticSeverity)
    ensures
        r == severity_of(level),
{
    match level {
        Level::Error => DiagnosticSeverity::Error,
        Level::Warning => DiagnosticSeverity::Warning,
        Level::Note => DiagnosticSeverity::Hint,
        Level::Suggestions => DiagnosticSeverity::Hint,
    }
}

/// The protocol code of a diagnostic identifier: the canonical name of an
/// error or warning kind, or the literal `suggestion`.
pub open spec fn code_of(id: DiagnosticIdView) -> NumberOrStringView {
    match id {
        DiagnosticIdView::Error(name) => NumberOrStringView::String(name),
        DiagnosticIdView::Warning(name) => NumberOrStringView::String(name),
        DiagnosticIdView::Suggestions => NumberOrStringView::String("suggestion"@),
    }
}

/// Convert a diagnostic identifier to the protocol diagnostic code.
pub fn kcl_diag_id_to_lsp_diag_code(id: DiagnosticId) -> (r: NumberOrString)
    ensures
        r@ == code_of(id@),
{
    match id {
        DiagnosticId::Error(name) => NumberOrString::String(name),
        DiagnosticId::Warning(name) => NumberOrString::String(name),
        DiagnosticId::Suggestions => NumberOrString::String("suggestion".to_owned()),
    }
}

/// The non-empty strings of a sequence, in order.
pub open spec fn nonempty_of(v: Seq<Seq<char>>) -> Seq<Seq<char>>
    decreases v.len(),
{
    if v.len() == 0 {
        Seq::empty()
    } else {
        nonempty_of(v.drop_last()) + if v.last().len() != 0 {
            seq![v.last()]
        } else {
            Seq::empty()
        }
    }
}

/// The suggested-replacement payload of a message: absent without suggested
/// replacements; the non-empty ones as a list when any remains after
/// filtering, and the bare empty string otherwise.
pub open spec fn data_of(sr: Option<Seq<Seq<char>>>) -> Option<ReplacementDataView> {
    match sr {
        Option::None => Option::None,
        Option::Some(v) => {
            let f = nonempty_of(v);
            if f.len() == 0 {
                Option::Some(ReplacementDataView::Text(Seq::empty()))
            } else {
                Option::Some(ReplacementDataView::List(f))
            }
        },
    }
}

/// The related-information entries contributed by one sibling message: one
/// entry when its file converts to a URI, none otherwise.
pub open spec fn related_entry_of(m: MessageView) -> Seq<RelatedInformationView> {
    match normalized_uri_of(m.start.filename) {
        Option::Some(u) => seq![
            RelatedInformationView {
                location: LocationView { uri: u, range: lsp_range_of(m.start, m.end) },
                message: m.message,
            },
        ],
        Option::None => Seq::empty(),
    }
}

/// The related-information entries of a sequence of sibling messages, in
/// order, each sibling whose file fails URI conversion silently dropped.
pub open spec fn related_of(msgs: Seq<MessageView>) -> Seq<RelatedInformationView>
    decreases msgs.len(),
{
    if msgs.len() == 0 {
        Seq::empty()
    } else {
        related_of(msgs.drop_last()) + related_entry_of(msgs.last())
    }
}

/// The protocol diagnostic of one message: its span mapped to a protocol
/// range, the given severity and code attached, the text copied verbatim,
/// related information built from the sibling messages (absent when there
/// are none), and the suggested-replacement payload.
pub open spec fn lsp_diag_of(
    m: MessageView,
    severity: DiagnosticSeverity,
    code: Option<NumberOrStringView>,
    related: Seq<MessageView>,
) -> DiagnosticView {
    DiagnosticView {
        range: lsp_range_of(m.start, m.end),
        severity: Option::Some(severity),
        code: code,
        message: m.message,
        related_information: if related.len() == 0 {
            Option::None
        } else {
            Option::Some(related_of(related))
        },
        data: data_of(m.suggested_replacement),
    }
}

/// Convert one compiler message to a protocol diagnostic, given its
/// severity, the sibling messages of its diagnostic, and an optional code.
pub fn kcl_msg_to_lsp_diags(
    msg: &Message,
    severity: DiagnosticSeverity,
    related_msg: Vec<Message>,
    code: Option<NumberOrString>,
) -> (r: Diagnostic)
    ensures
        r@ == lsp_diag_of(msg@, severity, code.deep_view(), related_msg.deep_view()),
{
    let range = Range { start: lsp_pos(&msg.range.0), end: lsp_pos(&msg.range.1) };
    let data: Option<ReplacementData> = match &msg.suggested_replacement {
        Option::Some(v) => {
            let ghost dv = v.deep_view();
            let mut filtered: Vec<String> = Vec::new();
            let mut k: usize = 0;
            while k < v.len()
                invariant
                    k <= v.len(),
                    dv == v.deep_view(),
                    filtered.deep_view() == nonempty_of(dv.take(k as int)),
                decreases v.len() - k,
            {
                let ghost pre = dv.take(k as int);
                if !v[k].as_str().is_empty() {
                    filtered.push(v[k].clone());
                }
                k = k + 1;
                proof {
                    let cur = dv.take(k as int);
                    assert(cur.drop_last() =~= pre);
                    assert(cur.last() == dv[k as int - 1]);
                    assert(filtered.deep_view() =~= nonempty_of(cur));
                }
            }
            proof {
                assert(dv.take(v@.len() as int) =~= dv);
            }
            if filtered.is_empty() {
                Option::Some(ReplacementData::Text(String::new()))
            } else {
                Option::Some(ReplacementData::List(filtered))
            }
        },
        Option::None => Option::None,
    };
    let related_information: Option<Vec<DiagnosticRelatedInformation>> = if related_msg.is_empty() {
        Option::None
    } else {
        let ghost rv = related_msg.deep_view();
        let mut entries: Vec<DiagnosticRelatedInformation> = Vec::new();
        let mut k: usize = 0;
        while k < related_msg.len()
            invariant
                k <= related_msg.len(),
                rv == related_msg.deep_view(),
                entries.deep_view() == related_of(rv.take(k as int)),
            decreases related_msg.len() - k,
        {
            let ghost pre = rv.take(k as int);
            let m = &related_msg[k];
            match url_from_path(m.range.0.filename.as_str()) {
                Result::Ok(uri) => {
                    let entry = DiagnosticRelatedInformation {
                        location: Location {
                            uri,
                            range: Range { start: lsp_pos(&m.range.0), end: lsp_pos(&m.range.1) },
                        },
                        message: m.message.clone(),
                    };
                    entries.push(entry);
                },
                Result::Err(_) => {},
            }
            k = k + 1;
            proof {
                let cur = rv.take(k as int);
                assert(cur.drop_last() =~= pre);
                assert(cur.last() == rv[k as int - 1]);
                assert(entries.deep_view() =~= related_of(cur));
            }
        }
        proof {
            assert(rv.take(related_msg@.len() as int) =~= rv);
        }
        Option::Some(entries)
    };
    let r = Diagnostic {
        range,
        severity: Option::Some(severity),
        code,
        message: msg.message.clone(),
        related_information,
        data,
    };
    proof {
        assert(r@ =~~= lsp_diag_of(msg@, severity, code.deep_view(), related_msg.deep_view()));
    }
    r
}

fn str_eq(a: &str, b: &str) -> (r: bool)
    ensures
        r == (a@ == b@),
{
    let na = a.unicode_len();
    let nb = b.unicode_len();
    if na != nb {
        return false;
    }
    let mut i: usize = 0;
    while i < na
        invariant
            i <= na,
            na == a@.len(),
            na == b@.len(),
            forall|j: int| 0 <= j < i ==> a@[j] == b@[j],
        decreases na - i,
    {
        if a.get_char(i) != b.get_char(i) {
            return false;
        }
        i = i + 1;
    }
    proof {
        assert(a@ =~= b@);
    }
    true
}

/// The protocol code of an optional diagnostic identifier.
pub open spec fn code_view_of(code: Option<DiagnosticIdView>) -> Option<NumberOrStringView> {
    match code {
        Option::Some(id) => Option::Some(code_of(id)),
        Option::None => Option::None,
    }
}

/// The protocol diagnostic produced for the message at one index of a
/// compiler diagnostic: converted with the diagnostic's severity and code,
/// and with all other messages as its siblings.
pub open spec fn diag_of_msg(d: KclDiagnosticView, i: int) -> DiagnosticView
    recommends
        0 <= i < d.messages.len(),
{
    lsp_diag_of(d.messages[i], severity_of(d.level), code_view_of(d.code), d.messages.remove(i))
}

/// The grouping of the first `n` messages of a diagnostic: a map from file
/// to the protocol diagnostics of its messages, in message order.
pub open spec fn grouped_upto(d: KclDiagnosticView, n: int) -> Map<Seq<char>, Seq<DiagnosticView>>
    decreases n,
{
    if n <= 0 {
        Map::empty()
    } else {
        let m = grouped_upto(d, n - 1);
        let f = d.messages[n - 1].start.filename;
        let prev = if m.contains_key(f) {
            m[f]
        } else {
            Seq::empty()
        };
        m.insert(f, prev.push(diag_of_msg(d, n - 1)))
    }
}

/// The grouping of a whole compiler diagnostic by file.
pub open spec fn grouped_of(d: KclDiagnosticView) -> Map<Seq<char>, Seq<DiagnosticView>> {
    grouped_upto(d, d.messages.len() as int)
}

/// The protocol diagnostics of the messages among the first `n` whose file
/// is exactly `f`, in message order.
pub open spec fn file_diags_upto(d: KclDiagnosticView, f: Seq<char>, n: int) -> Seq<DiagnosticView>
    decreases n,
{
    if n <= 0 {
        Seq::empty()
    } else {
        file_diags_upto(d, f, n - 1) + if d.messages[n - 1].start.filename == f {
            seq![diag_of_msg(d, n - 1)]
        } else {
            Seq::empty()
        }
    }
}

/// The protocol diagnostics of all messages of a diagnostic whose file is
/// exactly `f`, in message order.
pub open spec fn file_diags_of(d: KclDiagnosticView, f: Seq<char>) -> Seq<DiagnosticView> {
    file_diags_upto(d, f, d.messages.len() as int)
}

proof fn lemma_file_diags_absent(d: KclDiagnosticView, f: Seq<char>, n: int)
    requires
        0 <= n <= d.messages.len(),
        forall|i: int| 0 <= i < n ==> d.messages[i].start.filename != f,
    ensures
        file_diags_upto(d, f, n) == Seq::<DiagnosticView>::empty(),
    decreases n,
{
    if n > 0 {
        lemma_file_diags_absent(d, f, n - 1);
        assert(file_diags_upto(d, f, n) =~= Seq::<DiagnosticView>::empty());
    }
}

proof fn lemma_grouped_upto_characterization(d: KclDiagnosticView, n: int)
    requires
        0 <= n <= d.messages.len(),
    ensures
        forall|f: Seq<char>|
            grouped_upto(d, n).contains_key(f) <==> exists|i: int|
                0 <= i < n && d.messages[i].start.filename == f,
        forall|f: Seq<char>| #[trigger]
            grouped_upto(d, n).contains_key(f) ==> grouped_upto(d, n)[f] == file_diags_upto(
                d,
                f,
                n,
            ),
    decreases n,
{
    if n > 0 {
        lemma_grouped_upto_characterization(d, n - 1);
        let m = grouped_upto(d, n - 1);
        let f0 = d.messages[n - 1].start.filename;
        assert forall|f: Seq<char>|
            grouped_upto(d, n).contains_key(f) <==> exists|i: int|
                0 <= i < n && d.messages[i].start.filename == f by {
            if grouped_upto(d, n).contains_key(f) {
                if f == f0 {
                    assert(d.messages[n - 1].start.filename == f);
                } else {
                    let i = choose|i: int| 0 <= i < n - 1 && d.messages[i].start.filename == f;
                    assert(0 <= i < n && d.messages[i].start.filename == f);
                }
            }
            if exists|i: int| 0 <= i < n && d.messages[i].start.filename == f {
                let i = choose|i: int| 0 <= i < n && d.messages[i].start.filename == f;
                if f != f0 {
                    assert(i < n - 1);
                }
            }
        }
        assert forall|f: Seq<char>| #[trigger]
            grouped_upto(d, n).contains_key(f) implies grouped_upto(d, n)[f] == file_diags_upto(
            d,
            f,
            n,
        ) by {
            if f == f0 {
                let prev = if m.contains_key(f0) {
                    m[f0]
                } else {
                    Seq::<DiagnosticView>::empty()
                };
                if m.contains_key(f0) {
                    assert(prev == file_diags_upto(d, f0, n - 1));
                } else {
                    assert forall|i: int| 0 <= i < n - 1 implies d.messages[i].start.filename
                        != f0 by {
                        if d.messages[i].start.filename == f0 {
                            assert(m.contains_key(f0));
                        }
                    }
                    lemma_file_diags_absent(d, f0, n - 1);
                }
                assert(grouped_upto(d, n)[f0] =~= file_diags_upto(d, f0, n));
            } else {
                assert(grouped_upto(d, n)[f] == m[f]);
                assert(file_diags_upto(d, f, n) =~= file_diags_upto(d, f, n - 1));
            }
        }
    }
}

/// Grouping law: the grouped map holds exactly the files of the
/// diagnostic's messages, and the list of a file holds the protocol
/// diagnostics of exactly that file's messages, in message order.
pub proof fn lemma_grouped_by_file(d: KclDiagnosticView)
    ensures
        forall|f: Seq<char>|
            grouped_of(d).contains_key(f) <==> exists|i: int|
                0 <= i < d.messages.len() && d.messages[i].start.filename == f,
        forall|f: Seq<char>| #[trigger]
            grouped_of(d).contains_key(f) ==> grouped_of(d)[f] == file_diags_of(d, f),
{
    lemma_grouped_upto_characterization(d, d.messages.len() as int);
}

/// The grouped result: a mapping from file path to the ordered protocol
/// diagnostics of that file, with each file listed once.
pub struct DiagnosticsByFile {
    entries: Vec<(String, Vec<Diagnostic>)>,
}

spec fn entries_map(es: Seq<(String, Vec<Diagnostic>)>) -> Map<Seq<char>, Seq<DiagnosticView>>
    decreases es.len(),
{
    if es.len() == 0 {
        Map::empty()
    } else {
        entries_map(es.drop_last()).insert(es.last().0@, es.last().1.deep_view())
    }
}

impl View for DiagnosticsByFile {
    type V = Map<Seq<char>, Seq<DiagnosticView>>;

    closed spec fn view(&self) -> Map<Seq<char>, Seq<DiagnosticView>> {
        entries_map(self.entries@)
    }
}

spec fn has_key(es: Seq<(String, Vec<Diagnostic>)>, f: Seq<char>) -> bool {
    exists|i: int| 0 <= i < es.len() && (#[trigger] es[i]).0@ == f
}

proof fn lemma_entries_map_dom(es: Seq<(String, Vec<Diagnostic>)>)
    ensures
        forall|f: Seq<char>| #[trigger] entries_map(es).contains_key(f) == has_key(es, f),
    decreases es.len(),
{
    if es.len() > 0 {
        let dl = es.drop_last();
        lemma_entries_map_dom(dl);
        assert forall|f: Seq<char>| #[trigger]
            entries_map(es).contains_key(f) == has_key(es, f) by {
            if entries_map(es).contains_key(f) {
                if f == es.last().0@ {
                    assert((es[es.len() - 1]).0@ == f);
                } else {
                    assert(entries_map(dl).contains_key(f));
                    let i = choose|i: int| 0 <= i < dl.len() && (#[trigger] dl[i]).0@ == f;
                    assert((es[i]).0@ == f);
                }
                assert(has_key(es, f));
            }
            if has_key(es, f) {
                let i = choose|i: int| 0 <= i < es.len() && (#[trigger] es[i]).0@ == f;
                if i == es.len() - 1 {
                    assert(f == es.last().0@);
                } else {
                    assert((dl[i]).0@ == f);
                    assert(has_key(dl, f));
                    assert(entries_map(dl).contains_key(f));
                }
                assert(entries_map(es).contains_key(f));
            }
        }
    }
}

proof fn lemma_entries_map_value(es: Seq<(String, Vec<Diagnostic>)>, i: int)
    requires
        0 <= i < es.len(),
        forall|a: int, b: int| 0 <= a < b < es.len() ==> es[a].0@ != es[b].0@,
    ensures
        entries_map(es).contains_key(es[i].0@),
        entries_map(es)[es[i].0@] == es[i].1.deep_view(),
    decreases es.len(),
{
    if i == es.len() - 1 {
    } else {
        lemma_entries_map_value(es.drop_last(), i);
        assert(es.drop_last()[i] == es[i]);
        assert(es[i].0@ != es.last().0@);
    }
}

proof fn lemma_entries_map_len(es: Seq<(String, Vec<Diagnostic>)>)
    requires
        forall|a: int, b: int| 0 <= a < b < es.len() ==> es[a].0@ != es[b].0@,
    ensures
        entries_map(es).dom().finite(),
        entries_map(es).dom().len() == es.len(),
    decreases es.len(),
{
    if es.len() == 0 {
        assert(entries_map(es).dom() =~= Set::<Seq<char>>::empty());
    } else {
        lemma_entries_map_len(es.drop_last());
        lemma_entries_map_dom(es.drop_last());
        if entries_map(es.drop_last()).contains_key(es.last().0@) {
            let i = choose|i: int|
                0 <= i < es.drop_last().len() && (#[trigger] es.drop_last()[i]).0@ == es.last().0@;
            assert((es[i]).0@ == (es[es.len() - 1]).0@);
            assert(false);
        }
        assert(entries_map(es).dom() =~= entries_map(es.drop_last()).dom().insert(es.last().0@));
    }
}

proof fn lemma_entries_map_update(
    es: Seq<(String, Vec<Diagnostic>)>,
    i: int,
    p: (String, Vec<Diagnostic>),
)
    requires
        0 <= i < es.len(),
        forall|a: int, b: int| 0 <= a < b < es.len() ==> es[a].0@ != es[b].0@,
        p.0@ == es[i].0@,
    ensures
        entries_map(es.update(i, p)) == entries_map(es).insert(p.0@, p.1.deep_view()),
    decreases es.len(),
{
    let es2 = es.update(i, p);
    if i == es.len() - 1 {
        assert(es2.drop_last() =~= es.drop_last());
        assert(es2.last() == p);
        assert(entries_map(es2) =~= entries_map(es).insert(p.0@, p.1.deep_view()));
    } else {
        lemma_entries_map_update(es.drop_last(), i, p);
        assert(es2.drop_last() =~= es.drop_last().update(i, p));
        assert(es2.last() == es.last());
        assert(es[i].0@ != es[es.len() - 1].0@);
        assert(entries_map(es2) =~= entries_map(es).insert(p.0@, p.1.deep_view()));
    }
}

impl DiagnosticsByFile {
    /// Well-formedness: each file stands in the grouping at most once.
    pub closed spec fn wf(&self) -> bool {
        forall|a: int, b: int|
            0 <= a < b < self.entries@.len() ==> self.entries@[a].0@ != self.entries@[b].0@
    }

    /// An empty grouping.
    pub fn new() -> (r: Self)
        ensures
            r@ == Map::<Seq<char>, Seq<DiagnosticView>>::empty(),
            r.wf(),
    {
        DiagnosticsByFile { entries: Vec::new() }
    }

    /// The number of files in the grouping.
    pub fn len(&self) -> (r: usize)
        requires
            self.wf(),
        ensures
            r == self@.dom().len(),
    {
        proof {
            lemma_entries_map_len(self.entries@);
        }
        self.entries.len()
    }

    /// The diagnostics recorded for one file, in insertion order.
    #[verifier::loop_isolation(false)]
    pub fn get(&self, file: &str) -> (r: Option<&Vec<Diagnostic>>)
        requires
            self.wf(),
        ensures
            match r {
                Option::Some(v) => self@.contains_key(file@) && v.deep_view() == self@[file@],
                Option::None => !self@.contains_key(file@),
            },
    {
        proof {
            lemma_entries_map_dom(self.entries@);
        }
        let mut i: usize = 0;
        while i < self.entries.len()
            invariant
                i <= self.entries@.len(),
                forall|j: int| 0 <= j < i ==> self.entries@[j].0@ != file@,
            decreases self.entries@.len() - i,
        {
            if str_eq(self.entries[i].0.as_str(), file) {
                proof {
                    lemma_entries_map_value(self.entries@, i as int);
                }
                return Option::Some(&self.entries[i].1);
            }
            i = i + 1;
        }
        proof {
            if has_key(self.entries@, file@) {
                let i = choose|i: int|
                    0 <= i < self.entries@.len() && (#[trigger] self.entries@[i]).0@ == file@;
                assert(false);
            }
        }
        Option::None
    }

    /// The grouped entries, one per file, in insertion order.
    pub fn into_entries(self) -> (r: Vec<(String, Vec<Diagnostic>)>)
        requires
            self.wf(),
        ensures
            r@.len() == self@.dom().len(),
            forall|i: int|
                0 <= i < r@.len() ==> self@.contains_key((#[trigger] r@[i]).0@) && r@[i].1.deep_view()
                    == self@[r@[i].0@],
    {
        proof {
            lemma_entries_map_len(self.entries@);
            lemma_entries_map_dom(self.entries@);
            assert forall|i: int|
                0 <= i < self.entries@.len() implies self@.contains_key(
                (#[trigger] self.entries@[i]).0@,
            ) && self.entries@[i].1.deep_view() == self@[self.entries@[i].0@] by {
                lemma_entries_map_value(self.entries@, i);
            }
        }
        self.entries
    }

    /// Append one diagnostic to the list of a file, creating the list when
    /// the file is new.
    #[verifier::loop_isolation(false)]
    fn append_for_file(&mut self, file: String, d: Diagnostic)
        requires
            old(self).wf(),
        ensures
            final(self).wf(),
            final(self)@ == old(self)@.insert(
                file@,
                (if old(self)@.contains_key(file@) {
                    old(self)@[file@]
                } else {
                    Seq::<DiagnosticView>::empty()
                }).push(d@),
            ),
    {
        proof {
            lemma_entries_map_dom(self.entries@);
        }
        let ghost es0 = self.entries@;
        let mut i: usize = 0;
        while i < self.entries.len()
            invariant
                i <= es0.len(),
                self.entries@ == es0,
                forall|j: int| 0 <= j < i ==> es0[j].0@ != file@,
            decreases es0.len() - i,
        {
            if str_eq(self.entries[i].0.as_str(), file.as_str()) {
                proof {
                    lemma_entries_map_value(es0, i as int);
                }
                let mut pair = self.entries.remove(i);
                let ghost v0 = pair.1.deep_view();
                pair.1.push(d);
                proof {
                    assert(pair.1.deep_view() =~= v0.push(d@));
                }
                self.entries.insert(i, pair);
                proof {
                    assert(self.entries@ =~= es0.update(i as int, self.entries@[i as int]));
                    lemma_entries_map_update(es0, i as int, self.entries@[i as int]);
                    assert(self@ =~= old(self)@.insert(
                        file@,
                        old(self)@[file@].push(d@),
                    ));
                }
                return;
            }
            i = i + 1;
        }
        let mut list: Vec<Diagnostic> = Vec::new();
        list.push(d);
        let ghost lv = list.deep_view();
        self.entries.push((file, list));
        proof {
            assert(self.entries@.drop_last() =~= es0);
            assert(lv =~= Seq::<DiagnosticView>::empty().push(d@));
            if old(self)@.contains_key(file@) {
                let i = choose|i: int| 0 <= i < es0.len() && (#[trigger] es0[i]).0@ == file@;
                assert(false);
            }
            assert(self@ =~= old(self)@.insert(file@, Seq::<DiagnosticView>::empty().push(d@)));
        }
    }
}

/// Convert a compiler diagnostic to protocol diagnostics grouped by file:
/// each message becomes one protocol diagnostic, keyed by its own file and
/// carrying all other messages as its siblings.
#[verifier::loop_isolation(false)]
pub fn kcl_diag_to_lsp_diags(diag: &KclDiagnostic) -> (r: DiagnosticsByFile)
    ensures
        r@ == grouped_of(diag@),
        r.wf(),
{
    let mut diags_map = DiagnosticsByFile::new();
    let ghost dv = diag@;
    let mut idx: usize = 0;
    while idx < diag.messages.len()
        invariant
            idx <= diag.messages@.len(),
            diags_map@ == grouped_upto(dv, idx as int),
            diags_map.wf(),
        decreases diag.messages@.len() - idx,
    {
        let msg = &diag.messages[idx];
        let mut related_msg = diag.messages.clone();
        let ghost rc = related_msg@;
        related_msg.remove(idx);
        proof {
            assert forall|j: int| 0 <= j < rc.len() implies (#[trigger] rc[j])@
                == diag.messages@[j]@ by {
                assert(cloned::<Message>(diag.messages[j], rc[j]));
            }
            assert(related_msg@ =~= rc.remove(idx as int));
            assert forall|j: int| 0 <= j < related_msg@.len() implies (#[trigger] related_msg@[j])@
                == dv.messages.remove(idx as int)[j] by {
                if j < idx {
                    assert(related_msg@[j] == rc[j]);
                } else {
                    assert(related_msg@[j] == rc[j + 1]);
                }
            }
            assert(related_msg.deep_view() =~= dv.messages.remove(idx as int));
        }
        let code: Option<NumberOrString> = match &diag.code {
            Option::Some(id) => Option::Some(kcl_diag_id_to_lsp_diag_code(id.clone())),
            Option::None => Option::None,
        };
        proof {
            assert(code.deep_view() =~~= code_view_of(dv.code));
        }
        let lsp_diag = kcl_msg_to_lsp_diags(
            msg,
            kcl_err_level_to_severity(diag.level),
            related_msg,
            code,
        );
        proof {
            assert(lsp_diag@ =~~= diag_of_msg(dv, idx as int));
        }
        diags_map.append_for_file(msg.range.0.filename.clone(), lsp_diag);
        idx = idx + 1;
        proof {
            assert(diags_map@ =~= grouped_upto(dv, idx as int));
        }
    }
    diags_map
}

/// The protocol diagnostics of the messages among the first `n` whose file
/// equals `file` under canonicalization-insensitive comparison, in order.
pub open spec fn file_filtered_upto(d: KclDiagnosticView, file: Seq<char>, n: int) -> Seq<
    DiagnosticView,
>
    decreases n,
{
    if n <= 0 {
        Seq::empty()
    } else {
        file_filtered_upto(d, file, n - 1) + if canon_of(d.messages[n - 1].start.filename)
            == canon_of(file) {
            seq![diag_of_msg(d, n - 1)]
        } else {
            Seq::empty()
        }
    }
}

/// The protocol diagnostics of all messages of a diagnostic whose file
/// equals `file` under canonicalization-insensitive comparison, in order.
pub open spec fn file_filtered_of(d: KclDiagnosticView, file: Seq<char>) -> Seq<DiagnosticView> {
    file_filtered_upto(d, file, d.messages.len() as int)
}

/// Convert a compiler diagnostic to the protocol diagnostics of one file,
/// comparing file paths canonicalization-insensitively.
#[verifier::loop_isolation(false)]
pub fn kcl_diag_to_lsp_diags_by_file(diag: &KclDiagnostic, file_name: &str) -> (r: Vec<Diagnostic>)
    ensures
        r.deep_view() == file_filtered_of(diag@, file_name@),
{
    let canon_file = adjust_canonicalization(file_name);
    let ghost dv = diag@;
    let mut diags: Vec<Diagnostic> = Vec::new();
    let mut idx: usize = 0;
    while idx < diag.messages.len()
        invariant
            idx <= diag.messages@.len(),
            diags.deep_view() == file_filtered_upto(dv, file_name@, idx as int),
            canon_file@ == canon_of(file_name@),
        decreases diag.messages@.len() - idx,
    {
        let msg = &diag.messages[idx];
        let canon_msg = adjust_canonicalization(msg.range.0.filename.as_str());
        if str_eq(canon_msg.as_str(), canon_file.as_str()) {
            let mut related_msg = diag.messages.clone();
            let ghost rc = related_msg@;
            related_msg.remove(idx);
            proof {
                assert forall|j: int| 0 <= j < rc.len() implies (#[trigger] rc[j])@
                    == diag.messages@[j]@ by {
                    assert(cloned::<Message>(diag.messages[j], rc[j]));
                }
                assert(related_msg@ =~= rc.remove(idx as int));
                assert forall|j: int| 0 <= j < related_msg@.len() implies (
                #[trigger] related_msg@[j])@ == dv.messages.remove(idx as int)[j] by {
                    if j < idx {
                        assert(related_msg@[j] == rc[j]);
                    } else {
                        assert(related_msg@[j] == rc[j + 1]);
                    }
                }
                assert(related_msg.deep_view() =~= dv.messages.remove(idx as int));
            }
            let code: Option<NumberOrString> = match &diag.code {
                Option::Some(id) => Option::Some(kcl_diag_id_to_lsp_diag_code(id.clone())),
                Option::None => Option::None,
            };
            proof {
                assert(code.deep_view() =~~= code_view_of(dv.code));
            }
            let lsp_diag = kcl_msg_to_lsp_diags(
                msg,
                kcl_err_level_to_severity(diag.level),
                related_msg,
                code,
            );
            proof {
                assert(lsp_diag@ =~~= diag_of_msg(dv, idx as int));
            }
            diags.push(lsp_diag);
        }
        idx = idx + 1;
        proof {
            assert(diags.deep_view() =~= file_filtered_upto(dv, file_name@, idx as int));
        }
    }
    diags
}

/// The line mapping subtracts one from any one-based line that fits the
/// protocol type, and clamps a malformed zero line to zero instead of
/// underflowing.
pub proof fn lemma_lsp_line(line: u64)
    ensures
        1 <= line <= 0x1_0000_0000 ==> lsp_line(line) == line - 1,
        line == 0 ==> lsp_line(line) == 0,
{
}

/// A sibling message whose file path fails URI conversion contributes no
/// related-information entry: removing it leaves the entries unchanged, and
/// no error is raised for the diagnostic.
pub proof fn lemma_unconvertible_sibling_dropped(msgs: Seq<MessageView>, i: int)
    requires
        0 <= i < msgs.len(),
        normalized_uri_of(msgs[i].start.filename) is None,
    ensures
        related_of(msgs) == related_of(msgs.remove(i)),
    decreases msgs.len(),
{
    if i == msgs.len() - 1 {
        assert(msgs.remove(i) =~= msgs.drop_last());
        assert(related_entry_of(msgs.last()) =~= Seq::<RelatedInformationView>::empty());
        assert(related_of(msgs) =~= related_of(msgs.drop_last()));
    } else {
        lemma_unconvertible_sibling_dropped(msgs.drop_last(), i);
        assert(msgs.remove(i).drop_last() =~= msgs.drop_last().remove(i));
        assert(msgs.remove(i).last() == msgs.last());
        assert(related_of(msgs.remove(i)) == related_of(msgs.drop_last().remove(i))
            + related_entry_of(msgs.last()));
    }
}

/// The severity mapping is total and deterministic: both hint-tier levels
/// map to the hint severity, the two serious levels are preserved.
pub proof fn lemma_severity_mapping_total()
    ensures
        severity_of(Level::Error) == DiagnosticSeverity::Error,
        severity_of(Level::Warning) == DiagnosticSeverity::Warning,
        severity_of(Level::Note) == DiagnosticSeverity::Hint,
        severity_of(Level::Suggestions) == DiagnosticSeverity::Hint,
{
}

} // verus!
