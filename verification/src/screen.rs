//! What is drawn: lines of styled text.
use vstd::prelude::*;
use crate::maps;
use crate::text;
use crate::types;
use crate::types::{AppView, FwdView, HostView, MasterView, Tier};

verus! {

/// The colors in use.
#[derive(Debug, Clone, Copy, PartialEq, Eq, Structural)]
pub enum Color {
    Green,
    Red,
    Yellow,
    Cyan,
    DarkGray,
}

/// How a piece of text looks.
#[derive(Debug, Clone, Copy, PartialEq, Eq)]
pub struct Style {
    pub fg: Option<Color>,
    pub bold: bool,
    pub dim: bool,
    pub reversed: bool,
}

/// A piece of text that looks the same throughout.
#[derive(Debug, PartialEq)]
pub struct Span {
    pub text: String,
    pub style: Style,
}

/// The model of a [`Span`].
#[verifier::ext_equal]
pub struct SpanModel {
    pub text: Seq<char>,
    pub style: Style,
}

impl View for Span {
    type V = SpanModel;

    open spec fn view(&self) -> SpanModel {
        SpanModel { text: self.text@, style: self.style }
    }
}

/// A line on the screen; its own style lies under those of its spans.
#[derive(Debug, PartialEq)]
pub struct Line {
    pub spans: Vec<Span>,
    pub style: Style,
}

/// The model of a [`Line`].
#[verifier::ext_equal]
pub struct LineModel {
    pub spans: Seq<SpanModel>,
    pub style: Style,
}

impl View for Line {
    type V = LineModel;

    open spec fn view(&self) -> LineModel {
        LineModel { spans: maps::views(self.spans@), style: self.style }
    }
}

/// Nothing special.
pub open spec fn plain() -> Style {
    Style { fg: None, bold: false, dim: false, reversed: false }
}

/// In a color.
pub open spec fn colored(c: Color) -> Style {
    Style { fg: Some(c), ..plain() }
}

/// Bold.
pub open spec fn bold() -> Style {
    Style { bold: true, ..plain() }
}

/// Dim.
pub open spec fn dim() -> Style {
    Style { dim: true, ..plain() }
}

/// Foreground and background exchanged.
pub open spec fn reversed() -> Style {
    Style { reversed: true, ..plain() }
}

/// A piece of text.
pub open spec fn span(t: Seq<char>, style: Style) -> SpanModel {
    SpanModel { text: t, style }
}

/// A line of these spans.
pub open spec fn line(spans: Seq<SpanModel>) -> LineModel {
    LineModel { spans, style: plain() }
}

/// A line of one piece of text.
pub open spec fn text_line(t: Seq<char>, style: Style) -> LineModel {
    line(seq![span(t, style)])
}

/// The style of nothing special.
pub fn plain_style() -> (r: Style)
    ensures
        r == plain(),
{
    Style { fg: None, bold: false, dim: false, reversed: false }
}

/// The style of a color.
pub fn color_style(c: Color) -> (r: Style)
    ensures
        r == colored(c),
{
    Style { fg: Some(c), bold: false, dim: false, reversed: false }
}

/// The bold style.
pub fn bold_style() -> (r: Style)
    ensures
        r == bold(),
{
    Style { fg: None, bold: true, dim: false, reversed: false }
}

/// The dim style.
pub fn dim_style() -> (r: Style)
    ensures
        r == dim(),
{
    Style { fg: None, bold: false, dim: true, reversed: false }
}

/// A piece of text.
pub fn span_of(t: &str, style: Style) -> (r: Span)
    ensures
        r@ == span(t@, style),
{
    Span { text: t.to_owned(), style }
}

/// A line of these spans.
pub fn line_of(spans: Vec<Span>) -> (r: Line)
    ensures
        r@ == line(maps::views(spans@)),
{
    Line { spans, style: plain_style() }
}

/// A line of one piece of text.
pub fn text_line_of(t: &str, style: Style) -> (r: Line)
    ensures
        r@ == text_line(t@, style),
{
    let s = span_of(t, style);
    let spans: Vec<Span> = vec![s];
    assert(maps::views(spans@) =~= seq![s@]);
    line_of(spans)
}

/// A text with blanks behind it, so that it is at least `width` characters long.
pub open spec fn pad_right(s: Seq<char>, width: nat) -> Seq<char> {
    s + blanks(
        if s.len() < width {
            (width - s.len()) as nat
        } else {
            0
        },
    )
}

/// A text with blanks before it, so that it is at least `width` characters long.
pub open spec fn pad_left(s: Seq<char>, width: nat) -> Seq<char> {
    blanks(
        if s.len() < width {
            (width - s.len()) as nat
        } else {
            0
        },
    ) + s
}

/// Blanks.
pub open spec fn blanks(n: nat) -> Seq<char> {
    Seq::new(n, |i: int| ' ')
}

fn blanks_of(n: usize) -> (r: String)
    ensures
        r@ == blanks(n as nat),
{
    let mut s = String::new();
    for i in 0..n
        invariant
            s@ == blanks(i as nat),
    {
        s.push(' ');
        assert(s@ =~= blanks((i + 1) as nat));
    }
    s
}

fn missing(s: &str, width: usize) -> (r: usize)
    ensures
        r == (if s@.len() < width {
            width - s@.len()
        } else {
            0
        }),
{
    let n: usize = text::chars_of(s).len();
    if n < width {
        width - n
    } else {
        0
    }
}

fn pad_right_of(s: &str, width: usize) -> (r: String)
    ensures
        r@ == pad_right(s@, width as nat),
{
    let mut r = s.to_owned();
    r.append(blanks_of(missing(s, width)).as_str());
    r
}

fn pad_left_of(s: &str, width: usize) -> (r: String)
    ensures
        r@ == pad_left(s@, width as nat),
{
    let mut r = blanks_of(missing(s, width));
    r.append(s);
    r
}

/// The columns of the table of apps.
pub open spec fn columns(process: Seq<char>, remote: Seq<char>, local: Seq<char>) -> Seq<char> {
    pad_right(process, 18) + " "@ + pad_left(remote, 12) + " "@ + pad_left(local, 17) + "  "@
}

/// The columns of the table of apps.
pub fn columns_of(process: &str, remote: &str, local: &str) -> (r: String)
    ensures
        r@ == columns(process@, remote@, local@),
{
    let mut r = pad_right_of(process, 18);
    r.append(" ");
    r.append(pad_left_of(remote, 12).as_str());
    r.append(" ");
    r.append(pad_left_of(local, 17).as_str());
    r.append("  ");
    r
}

/// The mark, the words and the color for the forward of an app.
pub open spec fn status(app: types::AppModel) -> (Seq<char>, Seq<char>, Color) {
    match app.status {
        types::FwdModel::Active => ("●"@, "forwarded"@, Color::Green),
        types::FwdModel::External => ("⇄"@, "via your ssh"@, Color::Cyan),
        types::FwdModel::Pending => ("◌"@, "connecting…"@, Color::Yellow),
        types::FwdModel::Off => (
            "○"@,
            if app.muted {
                "off"@
            } else {
                "—"@
            },
            Color::DarkGray,
        ),
        types::FwdModel::Error(e) => ("✖"@, e, Color::Red),
    }
}

/// The line of an app. An app that is hidden by default is dim unless it is selected.
pub open spec fn app_line(app: types::AppModel, selected: bool) -> LineModel {
    let (mark, words, color) = status(app);
    let cursor = if selected {
        " ▸ "@
    } else {
        "   "@
    };
    let base = cursor + columns(
        match app.process {
            Some(p) => p,
            None => "?"@,
        },
        app.addr + ":"@ + text::decimal(app.rport as nat),
        match app.lport {
            Some(p) => "127.0.0.1:"@ + text::decimal(p as nat),
            None => "—"@,
        },
    );
    let pinned = if app.pinned {
        words + "  ⊙ pinned"@
    } else {
        words
    };
    let tail = if app.tier == Tier::System {
        pinned + "  [system]"@
    } else {
        pinned
    };
    let faded = app.tier != Tier::App && !selected;
    LineModel {
        spans: seq![
            span(
                base,
                if faded {
                    dim()
                } else {
                    plain()
                },
            ),
            span(
                mark + " "@,
                if faded {
                    dim()
                } else {
                    colored(color)
                },
            ),
            span(
                tail,
                if faded {
                    dim()
                } else {
                    colored(color)
                },
            ),
        ],
        style: if selected {
            reversed()
        } else {
            plain()
        },
    }
}

fn status_of(app: &AppView) -> (r: (String, String, Color))
    ensures
        (r.0@, r.1@, r.2) == status(app@),
{
    match &app.status {
        FwdView::Active => ("●".to_owned(), "forwarded".to_owned(), Color::Green),
        FwdView::External => ("⇄".to_owned(), "via your ssh".to_owned(), Color::Cyan),
        FwdView::Pending => ("◌".to_owned(), "connecting…".to_owned(), Color::Yellow),
        FwdView::Off => (
            "○".to_owned(),
            if app.muted {
                "off".to_owned()
            } else {
                "—".to_owned()
            },
            Color::DarkGray,
        ),
        FwdView::Error(e) => ("✖".to_owned(), e.clone(), Color::Red),
    }
}

/// The line of an app.
pub fn app_line_of(app: &AppView, selected: bool) -> (r: Line)
    ensures
        r@ == app_line(app@, selected),
{
    let process = match &app.process {
        Some(p) => p.clone(),
        None => "?".to_owned(),
    };
    let mut remote = app.addr.clone();
    remote.append(":");
    remote.append(text::decimal_of(app.rport as u64).as_str());
    let local = match app.lport {
        Some(p) => {
            let mut l = "127.0.0.1:".to_owned();
            l.append(text::decimal_of(p as u64).as_str());
            l
        },
        None => "—".to_owned(),
    };
    let (mut mark, mut tail, color) = status_of(app);
    mark.append(" ");
    if app.pinned {
        tail.append("  ⊙ pinned");
    }
    if app.tier == Tier::System {
        tail.append("  [system]");
    }
    let mut base = if selected {
        " ▸ ".to_owned()
    } else {
        "   ".to_owned()
    };
    base.append(columns_of(process.as_str(), remote.as_str(), local.as_str()).as_str());
    let faded = app.tier != Tier::App && !selected;
    let (first, rest) = if faded {
        (dim_style(), dim_style())
    } else {
        (plain_style(), color_style(color))
    };
    let spans: Vec<Span> = vec![
        Span { text: base, style: first },
        Span { text: mark, style: rest },
        Span { text: tail, style: rest },
    ];
    let style = if selected {
        Style { fg: None, bold: false, dim: false, reversed: true }
    } else {
        plain_style()
    };
    assert(maps::views(spans@) =~= app_line(app@, selected).spans);
    Line { spans, style }
}

/// The line of a host.
pub open spec fn host_line(h: types::HostModel) -> LineModel {
    let head = match h.master {
        types::MasterModel::Connecting => seq![
            span(" "@, plain()),
            span("⟳ "@, colored(Color::Yellow)),
            span(h.title, bold()),
            span("  connecting…"@, colored(Color::Yellow)),
        ],
        types::MasterModel::Ready { shared } => {
            let s = seq![
                span(" "@, plain()),
                span("● "@, colored(Color::Green)),
                span(h.title, bold()),
            ];
            if shared {
                s.push(span("  (sharing your ssh session)"@, dim()))
            } else {
                s
            }
        },
        types::MasterModel::Failed(e) => seq![
            span(" "@, plain()),
            span("✖ "@, colored(Color::Red)),
            span(h.title, bold()),
            span("  "@ + e, colored(Color::Red)),
        ],
    };
    let named = match h.alias {
        Some(a) => head.push(span("  ["@ + a + "]"@, dim())),
        None => head,
    };
    line(
        match h.scan_err {
            Some(e) => named.push(span("  scan failed: "@ + e, colored(Color::Red))),
            None => named,
        },
    )
}

/// Appends a piece of text to a line.
fn put(spans: &mut Vec<Span>, text: String, style: Style)
    ensures
        maps::views(final(spans)@) == maps::views(old(spans)@).push(span(text@, style)),
{
    let s = Span { text, style };
    spans.push(s);
    assert(maps::views(spans@) =~= maps::views(old(spans)@).push(s@));
}

/// The line of a host.
pub fn host_line_of(h: &HostView) -> (r: Line)
    ensures
        r@ == host_line(h@),
{
    let mut spans: Vec<Span> = Vec::new();
    assert(maps::views(spans@) =~= Seq::<SpanModel>::empty());
    put(&mut spans, " ".to_owned(), plain_style());
    match &h.master {
        MasterView::Connecting => {
            put(&mut spans, "⟳ ".to_owned(), color_style(Color::Yellow));
            put(&mut spans, h.title.clone(), bold_style());
            put(&mut spans, "  connecting…".to_owned(), color_style(Color::Yellow));
        },
        MasterView::Ready { shared } => {
            put(&mut spans, "● ".to_owned(), color_style(Color::Green));
            put(&mut spans, h.title.clone(), bold_style());
            if *shared {
                put(&mut spans, "  (sharing your ssh session)".to_owned(), dim_style());
            }
        },
        MasterView::Failed(e) => {
            put(&mut spans, "✖ ".to_owned(), color_style(Color::Red));
            put(&mut spans, h.title.clone(), bold_style());
            let mut why = "  ".to_owned();
            why.append(e.as_str());
            put(&mut spans, why, color_style(Color::Red));
        },
    }
    match &h.alias {
        Some(a) => {
            let mut name = "  [".to_owned();
            name.append(a.as_str());
            name.append("]");
            put(&mut spans, name, dim_style());
        },
        None => {},
    }
    match &h.scan_err {
        Some(e) => {
            let mut why = "  scan failed: ".to_owned();
            why.append(e.as_str());
            put(&mut spans, why, color_style(Color::Red));
        },
        None => {},
    }
    assert(maps::views(spans@) =~= host_line(h@).spans);
    line_of(spans)
}

} // verus!
