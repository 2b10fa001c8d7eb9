//! The viewer shell's decisions over its state: the title, the document
//! chips and breadcrumb, the status log after opening, the page shown, the
//! stream view's settings, and the diagnostics gathered from every panel.
use vstd::prelude::*;
use crate::about::app_title;
use crate::chunks::{
    default_limit, real_stream_default_limit, real_stream_preset_defaults, size_hint,
    RealStreamPreset,
};
use crate::labels::{
    child_detail, chip_label, display_file_chip_label, plain_prefix, PATH_DISPLAY_MAX_BYTES,
};
use crate::model::{
    copy_diagnostics, diagnostic_views, DiagnosticSeverity, DiagnosticSummary, DiagnosticView,
    DocumentFacts, NodeId, StreamMode, StreamSummary, StreamViewMode, TextSearchPageError,
};
use crate::node::{breadcrumb_text, node_breadcrumb};
use crate::paths::file_name_facts;
use crate::render::RealRenderKey;
use crate::text::{
    chars_of, decimal, push_all, push_decimal, push_str, string_from_chars,
};
use crate::tree::{has_root_row, TreeModel};

verus! {

/// A path as the shell shows it: its chip label (its file name, as the
/// platform's path rules find it), made safe to show.
pub open spec fn shown_path(path: Seq<char>, name: Option<Seq<char>>) -> Seq<char> {
    plain_prefix(chip_label(path, name), PATH_DISPLAY_MAX_BYTES as nat)
}

/// Whether `name` is the file name that std's `Path` reads in the shown
/// path, when a path is shown.
pub open spec fn names_shown_path(source: Option<Seq<char>>, name: Option<Seq<char>>) -> bool {
    match source {
        Some(p) => file_name_facts(p, name),
        None => true,
    }
}

/// The path whose name the chips show.
pub open spec fn chips_source(empty_workspace: bool, facts: Option<(Seq<char>, nat, nat)>) -> Option<
    Seq<char>,
> {
    if empty_workspace {
        None
    } else {
        match facts {
            Some((p, _, _)) => Some(p),
            None => None,
        }
    }
}

/// The chips of the top bar: the file, its page count and its xref size;
/// placeholders for an empty workspace, and the demo document's when no
/// real document is open.
pub open spec fn chips_text(
    empty_workspace: bool,
    facts: Option<(Seq<char>, nat, nat)>,
    name: Option<Seq<char>>,
) -> (Seq<char>, Seq<char>, Seq<char>) {
    if empty_workspace {
        ("No PDF"@, "pages -"@, "xref -"@)
    } else {
        match facts {
            Some((path, pages, xref)) => (
                shown_path(path, name),
                "pages "@ + decimal(pages),
                "xref "@ + decimal(xref),
            ),
            None => ("fake.pdf"@, "pages 1"@, "xref 3"@),
        }
    }
}

/// The facts the chips and title read.
pub open spec fn facts_view(facts: Option<&DocumentFacts>) -> Option<(Seq<char>, nat, nat)> {
    match facts {
        Some(f) => Some((f.file_path@, f.page_count as nat, f.xref_size as nat)),
        None => None,
    }
}

/// The chips of the top bar.
pub fn document_chips(empty_workspace: bool, facts: Option<&DocumentFacts>) -> (c: (
    String,
    String,
    String,
))
    ensures
        exists|name: Option<Seq<char>>|
            names_shown_path(chips_source(empty_workspace, facts_view(facts)), name) && (
            c.0@,
            c.1@,
            c.2@,
        ) == chips_text(empty_workspace, facts_view(facts), name),
{
    if empty_workspace {
        let c = (String::from_str("No PDF"), String::from_str("pages -"), String::from_str("xref -"));
        assert((c.0@, c.1@, c.2@) == chips_text(empty_workspace, facts_view(facts), None));
        return c;
    }
    match facts {
        Some(f) => {
            let label = display_file_chip_label(f.file_path.as_str());
            let mut pages: Vec<char> = Vec::new();
            push_str(&mut pages, "pages ");
            push_decimal(&mut pages, f.page_count as u64);
            let mut xref: Vec<char> = Vec::new();
            push_str(&mut xref, "xref ");
            push_decimal(&mut xref, f.xref_size as u64);
            let c = (label, string_from_chars(&pages), string_from_chars(&xref));
            let ghost name = choose|name: Option<Seq<char>>|
                file_name_facts(f.file_path@, name) && label@ == plain_prefix(
                    chip_label(f.file_path@, name),
                    PATH_DISPLAY_MAX_BYTES as nat,
                );
            assert((c.0@, c.1@, c.2@) == chips_text(empty_workspace, facts_view(facts), name));
            assert(names_shown_path(chips_source(empty_workspace, facts_view(facts)), name));
            c
        },
        None => {
            let c = (
                String::from_str("fake.pdf"),
                String::from_str("pages 1"),
                String::from_str("xref 3"),
            );
            assert((c.0@, c.1@, c.2@) == chips_text(empty_workspace, facts_view(facts), None));
            c
        },
    }
}

/// The window title: the file being opened, else nothing for an empty
/// workspace, else the open file (the demo document's when none is open),
/// each followed by the viewer's name.
pub open spec fn title_text(
    opening: Option<Seq<char>>,
    empty_workspace: bool,
    facts: Option<(Seq<char>, nat, nat)>,
    name: Option<Seq<char>>,
) -> Seq<char> {
    match opening {
        Some(path) => "Opening "@ + shown_path(path, name) + " - "@ + app_title(),
        None => if empty_workspace {
            app_title()
        } else {
            match facts {
                Some((path, _, _)) => shown_path(path, name) + " - "@ + app_title(),
                None => "fake.pdf - "@ + app_title(),
            }
        },
    }
}

/// The path whose name the window title shows.
pub open spec fn title_source(
    opening: Option<Seq<char>>,
    empty_workspace: bool,
    facts: Option<(Seq<char>, nat, nat)>,
) -> Option<Seq<char>> {
    match opening {
        Some(p) => Some(p),
        None => chips_source(empty_workspace, facts),
    }
}

/// The window title; `opening` is the path of a document being opened.
pub fn window_title(opening: Option<&str>, empty_workspace: bool, facts: Option<&DocumentFacts>) -> (t:
    String)
    ensures
        exists|name: Option<Seq<char>>|
            names_shown_path(
                title_source(crate::text::opt_str(opening), empty_workspace, facts_view(facts)),
                name,
            ) && t@ == title_text(crate::text::opt_str(opening), empty_workspace, facts_view(facts), name),
{
    let ghost o = crate::text::opt_str(opening);
    match opening {
        Some(p) => {
            let shown = display_file_chip_label(p);
            let ghost name = choose|name: Option<Seq<char>>|
                file_name_facts(p@, name) && shown@ == plain_prefix(
                    chip_label(p@, name),
                    PATH_DISPLAY_MAX_BYTES as nat,
                );
            let mut out: Vec<char> = Vec::new();
            push_str(&mut out, "Opening ");
            push_all(&mut out, &chars_of(shown.as_str()));
            push_str(&mut out, " - Scalpel");
            proof {
                reveal_strlit("Scalpel");
                reveal_strlit(" - Scalpel");
                reveal_strlit(" - ");
            }
            assert(out@ =~= title_text(o, empty_workspace, facts_view(facts), name));
            return string_from_chars(&out);
        },
        None => {},
    }
    if empty_workspace {
        let t = String::from_str("Scalpel");
        assert(t@ == title_text(o, empty_workspace, facts_view(facts), None));
        return t;
    }
    match facts {
        Some(f) => {
            let shown = display_file_chip_label(f.file_path.as_str());
            let ghost name = choose|name: Option<Seq<char>>|
                file_name_facts(f.file_path@, name) && shown@ == plain_prefix(
                    chip_label(f.file_path@, name),
                    PATH_DISPLAY_MAX_BYTES as nat,
                );
            let mut out: Vec<char> = Vec::new();
            push_all(&mut out, &chars_of(shown.as_str()));
            push_str(&mut out, " - Scalpel");
            proof {
                reveal_strlit("Scalpel");
                reveal_strlit(" - Scalpel");
                reveal_strlit(" - ");
            }
            assert(out@ =~= title_text(o, empty_workspace, facts_view(facts), name));
            string_from_chars(&out)
        },
        None => {
            let t = String::from_str("fake.pdf - Scalpel");
            proof {
                reveal_strlit("Scalpel");
                reveal_strlit("fake.pdf - Scalpel");
                reveal_strlit("fake.pdf - ");
            }
            assert(t@ =~= title_text(o, empty_workspace, facts_view(facts), None));
            t
        },
    }
}

/// The breadcrumb above the inspector: for an empty workspace, a note;
/// else the path of the node whose detail is shown, else that of the
/// selected row of a real tree (or `Document` when there is none), else the
/// demo document's.
pub open spec fn breadcrumb_label_text(
    empty_workspace: bool,
    detail: Option<crate::model::NodeView>,
    tree: TreeModel,
    selected_row: usize,
) -> Seq<char> {
    if empty_workspace {
        "No document"@
    } else {
        match detail {
            Some(id) => breadcrumb_text(id),
            None => match tree {
                TreeModel::Real(t) => if selected_row < t.rows@.len() {
                    breadcrumb_text(t.rows@[selected_row as int].summary.id@)
                } else {
                    "Document"@
                },
                TreeModel::Virtual(_) => "Document/FakeNode"@,
            },
        }
    }
}

/// The breadcrumb above the inspector; `detail` is the node whose detail
/// is shown, if any.
pub fn breadcrumb_label(
    empty_workspace: bool,
    detail: Option<&NodeId>,
    tree: &TreeModel,
    selected_row: usize,
) -> (s: String)
    ensures
        s@ == breadcrumb_label_text(
            empty_workspace,
            match detail {
                Some(id) => Some(id@),
                None => None,
            },
            *tree,
            selected_row,
        ),
{
    if empty_workspace {
        return String::from_str("No document");
    }
    match detail {
        Some(id) => node_breadcrumb(id),
        None => match tree {
            TreeModel::Real(t) => match t.summary(selected_row) {
                Some(summary) => node_breadcrumb(&summary.id),
                None => String::from_str("Document"),
            },
            TreeModel::Virtual(_) => String::from_str("Document/FakeNode"),
        },
    }
}

/// What a real tree's row count label reads.
pub open spec fn real_count_text(tree: TreeModel) -> Seq<char> {
    match tree {
        TreeModel::Real(t) => child_detail(
            t.total,
            (if has_root_row(t.row_values()) {
                t.rows@.len() - 1
            } else {
                t.rows@.len() as int
            }) as nat,
        ),
        TreeModel::Virtual(_) => seq![],
    }
}

/// The lines logged after a document opened with a real tree.
pub open spec fn real_opened_log(shown: Seq<char>, count: Seq<char>) -> Seq<Seq<char>> {
    seq![
        "real MuPDF opened "@ + shown,
        "loaded bounded root page: "@ + count,
        "real stream bytes available as bounded raw/decoded chunks"@,
    ]
}

/// The lines logged after the demo document opened.
pub open spec fn demo_opened_log(first: Seq<char>) -> Seq<Seq<char>> {
    seq![
        first,
        "virtual object tree uses generated rows"@,
        "large stream pane uses generated bytes"@,
    ]
}

/// The lines logged after a document opened.
pub open spec fn opened_log_text(tree: TreeModel, path: Seq<char>, name: Option<Seq<char>>) -> Seq<
    Seq<char>,
> {
    match tree {
        TreeModel::Real(_) => real_opened_log(shown_path(path, name), real_count_text(tree)),
        TreeModel::Virtual(_) => demo_opened_log("opened "@ + shown_path(path, name)),
    }
}

/// The views of a list of strings.
pub open spec fn log_views(v: Seq<String>) -> Seq<Seq<char>> {
    Seq::new(v.len(), |i: int| v[i]@)
}

/// A string made of a literal and a text.
fn joined(lit: &str, rest: &str) -> (s: String)
    ensures
        s@ == lit@ + rest@,
{
    let mut out: Vec<char> = Vec::new();
    push_str(&mut out, lit);
    push_all(&mut out, &chars_of(rest));
    string_from_chars(&out)
}

/// The lines for a real tree opened from `shown`.
fn real_log(shown: &str, tree: &TreeModel) -> (v: Vec<String>)
    requires
        tree is Real,
    ensures
        log_views(v@) == real_opened_log(shown@, real_count_text(*tree)),
{
    let count = tree.row_count_label();
    let v = vec![
        joined("real MuPDF opened ", shown),
        joined("loaded bounded root page: ", count.as_str()),
        String::from_str("real stream bytes available as bounded raw/decoded chunks"),
    ];
    assert(log_views(v@) =~= real_opened_log(shown@, real_count_text(*tree)));
    v
}

/// The lines for the demo document, after `first`.
fn demo_log(first: String) -> (v: Vec<String>)
    ensures
        log_views(v@) == demo_opened_log(first@),
{
    let v = vec![
        first,
        String::from_str("virtual object tree uses generated rows"),
        String::from_str("large stream pane uses generated bytes"),
    ];
    assert(log_views(v@) =~= demo_opened_log(v@[0]@));
    v
}

/// The status log after a document at `path` opened.
pub fn opened_pdf_status_log(tree: &TreeModel, path: &str) -> (log: Vec<String>)
    ensures
        exists|name: Option<Seq<char>>|
            file_name_facts(path@, name) && log_views(log@) == opened_log_text(*tree, path@, name),
{
    let shown = display_file_chip_label(path);
    let ghost name = choose|name: Option<Seq<char>>|
        file_name_facts(path@, name) && shown@ == plain_prefix(
            chip_label(path@, name),
            PATH_DISPLAY_MAX_BYTES as nat,
        );
    match tree {
        TreeModel::Real(_) => {
            let v = real_log(shown.as_str(), tree);
            assert(log_views(v@) == opened_log_text(*tree, path@, name));
            v
        },
        TreeModel::Virtual(_) => {
            let v = demo_log(joined("opened ", shown.as_str()));
            assert(log_views(v@) == opened_log_text(*tree, path@, name));
            v
        },
    }
}

/// The status log when the viewer starts: how the requested document
/// opened, or that the demo document is shown.
pub open spec fn initial_log_text(
    error: Option<Seq<char>>,
    tree: TreeModel,
    pdf_path: Option<Seq<char>>,
    name: Option<Seq<char>>,
) -> Seq<Seq<char>> {
    match (error, pdf_path) {
        (None, Some(path)) if tree is Real => real_opened_log(
            shown_path(path, name),
            real_count_text(tree),
        ),
        (Some(err), Some(path)) => seq!["failed to open "@ + shown_path(path, name), err],
        _ => demo_opened_log("fake shim opened fake.pdf"@),
    }
}

/// The path whose name the first status lines show.
pub open spec fn initial_source(
    error: Option<Seq<char>>,
    tree: TreeModel,
    pdf_path: Option<Seq<char>>,
) -> Option<Seq<char>> {
    match (error, pdf_path) {
        (None, Some(path)) if tree is Real => Some(path),
        (Some(_), Some(path)) => Some(path),
        _ => None,
    }
}

/// The status log when the viewer starts; `error` is why the document
/// could not be opened, if it could not.
pub fn initial_status_log(error: Option<&str>, tree: &TreeModel, pdf_path: Option<&str>) -> (log:
    Vec<String>)
    ensures
        exists|name: Option<Seq<char>>|
            names_shown_path(
                initial_source(crate::text::opt_str(error), *tree, crate::text::opt_str(pdf_path)),
                name,
            ) && log_views(log@) == initial_log_text(
                crate::text::opt_str(error),
                *tree,
                crate::text::opt_str(pdf_path),
                name,
            ),
{
    let ghost e = crate::text::opt_str(error);
    let ghost p = crate::text::opt_str(pdf_path);
    match pdf_path {
        Some(path) => {
            let shown = display_file_chip_label(path);
            let ghost name = choose|name: Option<Seq<char>>|
                file_name_facts(path@, name) && shown@ == plain_prefix(
                    chip_label(path@, name),
                    PATH_DISPLAY_MAX_BYTES as nat,
                );
            match error {
                None => if tree.is_real() {
                    let v = real_log(shown.as_str(), tree);
                    assert(log_views(v@) == initial_log_text(e, *tree, p, name));
                    return v;
                },
                Some(err) => {
                    let v = vec![joined("failed to open ", shown.as_str()), String::from_str(err)];
                    assert(log_views(v@) =~= initial_log_text(e, *tree, p, name));
                    return v;
                },
            }
        },
        None => {},
    }
    let v = demo_log(String::from_str("fake shim opened fake.pdf"));
    assert(log_views(v@) == initial_log_text(e, *tree, p, None));
    v
}

/// The page the preview moves to when `requested` is asked for: the
/// request kept within the document, and nothing when the document has no
/// pages or the page is already shown.
pub open spec fn page_change(page_count: usize, current: usize, requested: usize) -> Option<usize> {
    if page_count == 0 {
        None
    } else {
        let page = if requested < page_count {
            requested
        } else {
            (page_count - 1) as usize
        };
        if page == current {
            None
        } else {
            Some(page)
        }
    }
}

/// The page the preview moves to when `requested` is asked for, if it moves.
pub fn render_page_change(page_count: usize, current: usize, requested: usize) -> (p: Option<usize>)
    ensures
        p == page_change(page_count, current, requested),
{
    if page_count == 0 {
        return None;
    }
    let page = if requested < page_count {
        requested
    } else {
        page_count - 1
    };
    if page == current {
        None
    } else {
        Some(page)
    }
}

/// The render to ask for: none unless a real document with pages is open.
pub fn current_render_key(
    is_real: bool,
    page_count: usize,
    page_index: usize,
    zoom_bits: u32,
    rotation_degrees: i32,
    max_dimension: u32,
) -> (k: Option<RealRenderKey>)
    ensures
        !is_real || page_count == 0 ==> k is None,
        is_real && page_count > 0 ==> k == Some(
            RealRenderKey { page_index, zoom_bits, rotation_degrees, max_dimension },
        ),
{
    if !is_real || page_count == 0 {
        return None;
    }
    Some(RealRenderKey::new(page_index, zoom_bits, rotation_degrees, max_dimension))
}

/// How the stream view reads and shows a stream.
#[derive(Clone, Copy, Debug)]
pub struct RealStreamSettings {
    pub preset: RealStreamPreset,
    pub mode: StreamMode,
    pub view_mode: StreamViewMode,
    pub offset: u64,
    pub limit: usize,
}

impl RealStreamSettings {
    /// Puts the settings back to the preset's start for `stream`: its read
    /// and display modes, the first byte, and the default window size.
    /// Gives whether anything changed.
    pub fn apply_real_stream_preset(&mut self, stream: &StreamSummary) -> (changed: bool)
        ensures
            final(self).preset == old(self).preset,
            (final(self).mode, final(self).view_mode) == real_preset_modes(
                old(self).preset,
                stream.can_decode,
            ),
            final(self).offset == 0,
            final(self).limit == default_limit(size_hint(*stream, final(self).mode)),
            changed == (final(self).mode != old(self).mode || final(self).view_mode != old(
                self,
            ).view_mode || old(self).offset != 0 || final(self).limit != old(self).limit),
    {
        let (mode, view_mode) = real_stream_preset_defaults(self.preset, stream.can_decode);
        let limit = real_stream_default_limit(stream, mode);
        let mut changed = false;
        if self.mode != mode {
            self.mode = mode;
            changed = true;
        }
        if self.view_mode != view_mode {
            self.view_mode = view_mode;
            changed = true;
        }
        if self.offset != 0 {
            self.offset = 0;
            changed = true;
        }
        if self.limit != limit {
            self.limit = limit;
            changed = true;
        }
        changed
    }
}

/// The largest window the stream view's limit control accepts.
pub const REAL_STREAM_MAX_VIEW_LIMIT_BYTES: usize = 4194304;

/// What the stream view holds when its controls are drawn: the key of the
/// window asked for, the loaded window, a load under way.
#[derive(Clone, Copy, Debug)]
pub struct StreamPanelLoad {
    pub has_key: bool,
    pub has_chunk: bool,
    pub has_job: bool,
}

/// What was done with the stream view's controls in one frame.
#[derive(Clone, Copy, Debug)]
pub enum StreamPanelEvent {
    Nothing,
    ChoosePreset(RealStreamPreset),
    ChooseMode(StreamMode),
    ChooseFormat(StreamViewMode),
    SetOffset(u64),
    SetLimit(usize),
    Reload,
    CancelLoad,
}

/// What the stream view does next: drop the loaded window (and any load
/// under way), load the window of the settings, cancel the load under way.
#[derive(Clone, Copy, Debug)]
pub struct StreamPanelActions {
    pub clear: bool,
    pub load: bool,
    pub cancel: bool,
}

/// The settings after the preset is applied to them for `stream`.
pub open spec fn preset_applied(s: RealStreamSettings, stream: StreamSummary) -> RealStreamSettings {
    let (mode, view_mode) = real_preset_modes(s.preset, stream.can_decode);
    RealStreamSettings {
        preset: s.preset,
        mode,
        view_mode,
        offset: 0,
        limit: default_limit(size_hint(stream, mode)) as usize,
    }
}

/// Whether two settings ask for a different window or display.
pub open spec fn settings_differ(a: RealStreamSettings, b: RealStreamSettings) -> bool {
    a.mode != b.mode || a.view_mode != b.view_mode || a.offset != b.offset || a.limit != b.limit
}

/// `v` kept between 1 and the largest window.
pub open spec fn clamp_limit(v: usize) -> usize {
    if v < 1 {
        1
    } else if v > REAL_STREAM_MAX_VIEW_LIMIT_BYTES {
        REAL_STREAM_MAX_VIEW_LIMIT_BYTES
    } else {
        v
    }
}

/// The settings after one control is used, and whether the window asked
/// for changed. A new preset is applied afresh; the decoded mode cannot be
/// chosen for a stream that cannot be decoded; the limit is kept between 1
/// and the largest window.
pub open spec fn panel_event_settings(
    s: RealStreamSettings,
    stream: StreamSummary,
    event: StreamPanelEvent,
) -> (RealStreamSettings, bool) {
    match event {
        StreamPanelEvent::ChoosePreset(p) => if p == s.preset {
            (s, false)
        } else {
            let t = preset_applied(
                RealStreamSettings {
                    preset: p,
                    mode: s.mode,
                    view_mode: s.view_mode,
                    offset: s.offset,
                    limit: s.limit,
                },
                stream,
            );
            (t, settings_differ(s, t))
        },
        StreamPanelEvent::ChooseMode(m) => if m == s.mode || (m == StreamMode::Decoded
            && !stream.can_decode) {
            (s, false)
        } else {
            (
                RealStreamSettings {
                    preset: s.preset,
                    mode: m,
                    view_mode: s.view_mode,
                    offset: s.offset,
                    limit: s.limit,
                },
                true,
            )
        },
        StreamPanelEvent::ChooseFormat(v) => if v == s.view_mode {
            (s, false)
        } else {
            (
                RealStreamSettings {
                    preset: s.preset,
                    mode: s.mode,
                    view_mode: v,
                    offset: s.offset,
                    limit: s.limit,
                },
                true,
            )
        },
        StreamPanelEvent::SetOffset(o) => if o == s.offset {
            (s, false)
        } else {
            (
                RealStreamSettings {
                    preset: s.preset,
                    mode: s.mode,
                    view_mode: s.view_mode,
                    offset: o,
                    limit: s.limit,
                },
                true,
            )
        },
        StreamPanelEvent::SetLimit(l) => if clamp_limit(l) == s.limit {
            (s, false)
        } else {
            (
                RealStreamSettings {
                    preset: s.preset,
                    mode: s.mode,
                    view_mode: s.view_mode,
                    offset: s.offset,
                    limit: clamp_limit(l),
                },
                true,
            )
        },
        _ => (s, false),
    }
}

/// One frame of the stream view's controls. On first show (nothing asked
/// for, loaded or loading) the preset is applied. Then the control used
/// changes the settings; with the advanced controls open, a decoded mode
/// that the stream cannot give falls back to raw. A changed window, or a
/// reload, drops what is loaded; the window is then loaded when a reload
/// asked for it or nothing is asked for or loading; a load still under way
/// can be cancelled.
pub open spec fn panel_step(
    s: RealStreamSettings,
    stream: StreamSummary,
    load: StreamPanelLoad,
    event: StreamPanelEvent,
    advanced_open: bool,
) -> (RealStreamSettings, StreamPanelActions) {
    let first_show = !load.has_key && !load.has_chunk && !load.has_job;
    let s0 = if first_show {
        preset_applied(s, stream)
    } else {
        s
    };
    let (s1, changed) = panel_event_settings(s0, stream, event);
    let forced = advanced_open && !stream.can_decode && s1.mode == StreamMode::Decoded;
    let s2 = if forced {
        RealStreamSettings {
            preset: s1.preset,
            mode: StreamMode::Raw,
            view_mode: s1.view_mode,
            offset: s1.offset,
            limit: s1.limit,
        }
    } else {
        s1
    };
    let reload = event is Reload;
    let clear = changed || forced || reload;
    let job_left = load.has_job && !clear;
    let key_left = load.has_key && !clear;
    (
        s2,
        StreamPanelActions {
            clear,
            load: reload || (!job_left && !key_left),
            cancel: job_left && event is CancelLoad,
        },
    )
}

impl RealStreamSettings {
    /// One frame of the stream view's controls: updates the settings and
    /// gives what to do with the loaded window.
    pub fn real_stream_panel_step(
        &mut self,
        stream: &StreamSummary,
        load: StreamPanelLoad,
        event: StreamPanelEvent,
        advanced_open: bool,
    ) -> (actions: StreamPanelActions)
        ensures
            (*final(self), actions) == panel_step(*old(self), *stream, load, event, advanced_open),
    {
        if !load.has_key && !load.has_chunk && !load.has_job {
            self.apply_real_stream_preset(stream);
        }
        let mut changed = false;
        match event {
            StreamPanelEvent::ChoosePreset(p) => {
                if p != self.preset {
                    self.preset = p;
                    changed = self.apply_real_stream_preset(stream);
                }
            },
            StreamPanelEvent::ChooseMode(m) => {
                if m != self.mode && !(m == StreamMode::Decoded && !stream.can_decode) {
                    self.mode = m;
                    changed = true;
                }
            },
            StreamPanelEvent::ChooseFormat(v) => {
                if v != self.view_mode {
                    self.view_mode = v;
                    changed = true;
                }
            },
            StreamPanelEvent::SetOffset(o) => {
                if o != self.offset {
                    self.offset = o;
                    changed = true;
                }
            },
            StreamPanelEvent::SetLimit(l) => {
                let c = if l < 1 {
                    1
                } else if l > REAL_STREAM_MAX_VIEW_LIMIT_BYTES {
                    REAL_STREAM_MAX_VIEW_LIMIT_BYTES
                } else {
                    l
                };
                if c != self.limit {
                    self.limit = c;
                    changed = true;
                }
            },
            _ => {},
        }
        if advanced_open && !stream.can_decode && self.mode == StreamMode::Decoded {
            self.mode = StreamMode::Raw;
            changed = true;
        }
        let reload = match event {
            StreamPanelEvent::Reload => true,
            _ => false,
        };
        let cancel_asked = match event {
            StreamPanelEvent::CancelLoad => true,
            _ => false,
        };
        let clear = changed || reload;
        let job_left = load.has_job && !clear;
        let key_left = load.has_key && !clear;
        StreamPanelActions {
            clear,
            load: reload || (!job_left && !key_left),
            cancel: job_left && cancel_asked,
        }
    }
}

/// The read and display modes a preset starts with.
pub open spec fn real_preset_modes(preset: RealStreamPreset, can_decode: bool) -> (
    StreamMode,
    StreamViewMode,
) {
    match preset {
        RealStreamPreset::Nice => if can_decode {
            (StreamMode::Decoded, StreamViewMode::Text)
        } else {
            (StreamMode::Raw, StreamViewMode::Text)
        },
        RealStreamPreset::Raw => (StreamMode::Raw, StreamViewMode::Hex),
    }
}

/// A page whose text could not be extracted, as a diagnostic.
pub open spec fn page_error_diagnostic(e: (usize, Seq<char>)) -> DiagnosticView {
    DiagnosticView {
        severity: DiagnosticSeverity::Warning,
        code: "Unknown"@,
        message: "text extraction failed on page "@ + decimal((e.0 + 1) as nat) + ": "@ + e.1,
        page_index: Some(e.0),
        object: None,
    }
}

/// The diagnostics of every panel, in order: the document's, the shown
/// detail's, the loaded stream window's, the render's, then one per page
/// that a text search could not read.
pub open spec fn collected(
    document: Seq<DiagnosticView>,
    detail: Seq<DiagnosticView>,
    stream: Seq<DiagnosticView>,
    render: Seq<DiagnosticView>,
    page_errors: Seq<(usize, Seq<char>)>,
) -> Seq<DiagnosticView> {
    document + detail + stream + render + page_errors.map_values(
        |e: (usize, Seq<char>)| page_error_diagnostic(e),
    )
}

/// The values of page errors.
pub open spec fn page_error_views(v: Seq<TextSearchPageError>) -> Seq<(usize, Seq<char>)> {
    Seq::new(v.len(), |i: int| (v[i].page_index, v[i].message@))
}

/// The diagnostics of an optional list, none when there is no list.
pub open spec fn opt_diags(v: Option<&Vec<DiagnosticSummary>>) -> Seq<DiagnosticView> {
    match v {
        Some(d) => diagnostic_views(d@),
        None => seq![],
    }
}

/// Appends copies of `add` to `out`.
fn extend_diagnostics(out: &mut Vec<DiagnosticSummary>, add: &Vec<DiagnosticSummary>)
    ensures
        diagnostic_views(final(out)@) == diagnostic_views(old(out)@) + diagnostic_views(add@),
{
    let copies = copy_diagnostics(add);
    let mut i: usize = 0;
    let ghost start = diagnostic_views(out@);
    while i < copies.len()
        invariant
            0 <= i <= copies@.len(),
            diagnostic_views(copies@) == diagnostic_views(add@),
            diagnostic_views(out@) == start + diagnostic_views(copies@).take(i as int),
        decreases copies@.len() - i,
    {
        let d = DiagnosticSummary {
            severity: copies[i].severity,
            code: copies[i].code.clone(),
            message: copies[i].message.clone(),
            page_index: copies[i].page_index,
            object: copies[i].object,
        };
        let ghost before = diagnostic_views(out@);
        out.push(d);
        assert(diagnostic_views(out@) =~= before.push(copies@[i as int]@));
        assert(diagnostic_views(copies@).take(i + 1) =~= diagnostic_views(copies@).take(
            i as int,
        ).push(copies@[i as int]@));
        i += 1;
    }
    assert(diagnostic_views(copies@).take(i as int) =~= diagnostic_views(copies@));
}

/// The diagnostics shown in the diagnostics panel, gathered from every
/// panel (see `collected`).
pub fn collected_diagnostics(
    document: Option<&Vec<DiagnosticSummary>>,
    detail: Option<&Vec<DiagnosticSummary>>,
    stream: Option<&Vec<DiagnosticSummary>>,
    render: Option<&Vec<DiagnosticSummary>>,
    page_errors: Option<&Vec<TextSearchPageError>>,
) -> (d: Vec<DiagnosticSummary>)
    requires
        page_errors matches Some(errs) ==> forall|i: int|
            0 <= i < errs@.len() ==> #[trigger] errs@[i].page_index < usize::MAX,
    ensures
        diagnostic_views(d@) == collected(
            opt_diags(document),
            opt_diags(detail),
            opt_diags(stream),
            opt_diags(render),
            match page_errors {
                Some(errs) => page_error_views(errs@),
                None => seq![],
            },
        ),
{
    let mut out: Vec<DiagnosticSummary> = Vec::new();
    assert(diagnostic_views(out@) =~= seq![]);
    match document {
        Some(v) => extend_diagnostics(&mut out, v),
        None => {},
    }
    match detail {
        Some(v) => extend_diagnostics(&mut out, v),
        None => {},
    }
    match stream {
        Some(v) => extend_diagnostics(&mut out, v),
        None => {},
    }
    match render {
        Some(v) => extend_diagnostics(&mut out, v),
        None => {},
    }
    let ghost before = diagnostic_views(out@);
    let ghost errs: Seq<(usize, Seq<char>)> = match page_errors {
        Some(errs) => page_error_views(errs@),
        None => seq![],
    };
    assert(before =~= opt_diags(document) + opt_diags(detail) + opt_diags(stream) + opt_diags(
        render,
    ));
    match page_errors {
        Some(list) => {
            let mut i: usize = 0;
            while i < list.len()
                invariant
                    0 <= i <= list@.len(),
                    errs == page_error_views(list@),
                    forall|k: int| 0 <= k < list@.len() ==> #[trigger] list@[k].page_index
                        < usize::MAX,
                    diagnostic_views(out@) == before + errs.take(i as int).map_values(
                        |e: (usize, Seq<char>)| page_error_diagnostic(e),
                    ),
                decreases list@.len() - i,
            {
                let e = &list[i];
                let mut msg: Vec<char> = Vec::new();
                push_str(&mut msg, "text extraction failed on page ");
                push_decimal(&mut msg, (e.page_index + 1) as u64);
                push_str(&mut msg, ": ");
                push_all(&mut msg, &chars_of(e.message.as_str()));
                let d = DiagnosticSummary {
                    severity: DiagnosticSeverity::Warning,
                    code: String::from_str("Unknown"),
                    message: string_from_chars(&msg),
                    page_index: Some(e.page_index),
                    object: None,
                };
                let ghost prev = diagnostic_views(out@);
                out.push(d);
                assert(diagnostic_views(out@) =~= prev.push(d@));
                assert(d@ == page_error_diagnostic(errs[i as int]));
                assert(errs.take(i + 1).map_values(|e: (usize, Seq<char>)| page_error_diagnostic(e))
                    =~= errs.take(i as int).map_values(
                    |e: (usize, Seq<char>)| page_error_diagnostic(e),
                ).push(page_error_diagnostic(errs[i as int])));
                i += 1;
            }
            assert(errs.take(i as int) =~= errs);
        },
        None => {
            assert(errs.map_values(|e: (usize, Seq<char>)| page_error_diagnostic(e)) =~= seq![]);
            assert(before + seq![] =~= before);
        },
    }
    out
}

// ---------------------------------------------------------------------------
// Start-up
// ---------------------------------------------------------------------------
/// What the viewer does first: whether it starts with an empty workspace,
/// which document it opens otherwise (none means the demo document), and
/// the render dimension limit it uses.
#[derive(Clone, Debug)]
pub struct InitialDecision {
    pub empty_workspace: bool,
    pub open_document: bool,
    pub open_path: Option<String>,
    pub render_max_dimension: u32,
}

/// What the viewer does first, from its options: it starts empty only when
/// asked to and no document is named; otherwise it opens the named document
/// (or the demo document).
pub fn initial_shell_decision(
    start_empty_when_no_pdf: bool,
    pdf_path: Option<&str>,
    render_max_dimension: Option<u32>,
) -> (d: InitialDecision)
    ensures
        d.empty_workspace == (start_empty_when_no_pdf && pdf_path is None),
        d.open_document == !d.empty_workspace,
        crate::text::opt_text(d.open_path) == crate::text::opt_str(pdf_path),
        d.render_max_dimension == crate::render::max_dimension_or_default(render_max_dimension),
{
    let empty = start_empty_when_no_pdf && pdf_path.is_none();
    InitialDecision {
        empty_workspace: empty,
        open_document: !empty,
        open_path: match pdf_path {
            Some(p) => Some(String::from_str(p)),
            None => None,
        },
        render_max_dimension: crate::render::render_max_dimension_or_default(render_max_dimension),
    }
}

/// The first status lines and whether the opened document joins the
/// recent list.
#[derive(Clone, Debug)]
pub struct InitialShell {
    pub status_log: Vec<String>,
    pub record_recent: bool,
}

/// The line about the page list loaded at start-up, if any.
pub open spec fn page_list_lines(
    pages: Option<(Option<usize>, nat)>,
    pages_error: Option<Seq<char>>,
) -> Seq<Seq<char>> {
    match pages {
        Some((total, loaded)) => seq!["loaded page list "@ + child_detail(total, loaded)],
        None => match pages_error {
            Some(err) => seq!["page list load failed: "@ + err],
            None => seq![],
        },
    }
}

/// The status lines at start-up: those of an empty workspace or of how the
/// document opened, then the page list line.
pub open spec fn startup_log_text(
    empty_workspace: bool,
    error: Option<Seq<char>>,
    tree: TreeModel,
    pdf_path: Option<Seq<char>>,
    pages: Option<(Option<usize>, nat)>,
    pages_error: Option<Seq<char>>,
    name: Option<Seq<char>>,
) -> Seq<Seq<char>> {
    (if empty_workspace {
        seq!["No PDF open"@, "Open PDF or choose a recent file"@]
    } else {
        initial_log_text(error, tree, pdf_path, name)
    }) + page_list_lines(pages, pages_error)
}

/// The values of an optional page list: its total and how many it holds.
pub open spec fn page_list_view(
    pages: Option<&crate::model::ChildPage<crate::model::ObjectSummary>>,
) -> Option<(Option<usize>, nat)> {
    match pages {
        Some(p) => Some((p.total, p.items@.len())),
        None => None,
    }
}

/// Whether `log` is the start-up log, with `name` the file name that std's
/// `Path` reads in the path shown, when one is shown.
pub open spec fn startup_log_with(
    empty_workspace: bool,
    error: Option<Seq<char>>,
    tree: TreeModel,
    pdf_path: Option<Seq<char>>,
    pages: Option<(Option<usize>, nat)>,
    pages_error: Option<Seq<char>>,
    log: Seq<Seq<char>>,
    name: Option<Seq<char>>,
) -> bool {
    &&& !empty_workspace ==> names_shown_path(initial_source(error, tree, pdf_path), name)
    &&& log == startup_log_text(empty_workspace, error, tree, pdf_path, pages, pages_error, name)
}

/// The start-up state once the document was opened (or not): `error` is
/// why it could not be, `pages` the page list loaded, `pages_error` why it
/// could not be loaded. The opened document is recorded as recent when it
/// opened and was named.
pub fn initial_shell_after_open(
    empty_workspace: bool,
    error: Option<&str>,
    tree: &TreeModel,
    pdf_path: Option<&str>,
    pages: Option<&crate::model::ChildPage<crate::model::ObjectSummary>>,
    pages_error: Option<&str>,
) -> (s: InitialShell)
    ensures
        exists|name: Option<Seq<char>>|
            startup_log_with(
                empty_workspace,
                crate::text::opt_str(error),
                *tree,
                crate::text::opt_str(pdf_path),
                page_list_view(pages),
                crate::text::opt_str(pages_error),
                log_views(s.status_log@),
                name,
            ),
        s.record_recent == (!empty_workspace && error is None && pdf_path is Some),
{
    let mut log: Vec<String> = if empty_workspace {
        let v = crate::labels::empty_status_log();
        assert(log_views(v@) =~= seq!["No PDF open"@, "Open PDF or choose a recent file"@]);
        v
    } else {
        initial_status_log(error, tree, pdf_path)
    };
    let ghost e = crate::text::opt_str(error);
    let ghost p = crate::text::opt_str(pdf_path);
    let ghost name: Option<Seq<char>> = if empty_workspace {
        None
    } else {
        choose|name: Option<Seq<char>>|
            names_shown_path(initial_source(e, *tree, p), name) && log_views(log@)
                == initial_log_text(e, *tree, p, name)
    };
    let ghost first = log_views(log@);
    match pages {
        Some(pg) => {
            let detail = crate::labels::child_page_detail(pg.total, pg.items.len());
            log.push(joined("loaded page list ", detail.as_str()));
        },
        None => match pages_error {
            Some(err) => log.push(joined("page list load failed: ", err)),
            None => {},
        },
    }
    assert(log_views(log@) =~= first + page_list_lines(
        page_list_view(pages),
        crate::text::opt_str(pages_error),
    ));
    assert(log_views(log@) == startup_log_text(
        empty_workspace,
        e,
        *tree,
        p,
        page_list_view(pages),
        crate::text::opt_str(pages_error),
        name,
    ));
    assert(!empty_workspace ==> names_shown_path(initial_source(e, *tree, p), name));
    let r = InitialShell {
        status_log: log,
        record_recent: !empty_workspace && error.is_none() && pdf_path.is_some(),
    };
    assert(startup_log_with(
        empty_workspace,
        e,
        *tree,
        p,
        page_list_view(pages),
        crate::text::opt_str(pages_error),
        log_views(r.status_log@),
        name,
    ));
    r
}

} // verus!
