//! The plain-value parts of the widget kit: icon identities with their accessibility labels,
//! and the row order of a log feed.

use vstd::prelude::*;

verus! {

/// Line icons (drawn as strokes, never glyphs from a font).
#[derive(Clone, Copy, Debug, PartialEq, Eq, Hash, Structural)]
pub enum Icon {
    ChevronLeft,
    ChevronRight,
    ChevronUp,
    ChevronDown,
    ArrowUp,
    ArrowDown,
    TriangleUp,
    TriangleDown,
    Plus,
    Cross,
    /// Circular arrow (reload).
    Refresh,
    /// Gear (settings): ring with radial teeth.
    Settings,
    /// Transport: filled triangle.
    Play,
    Pause,
    Stop,
    /// Transport: bar + triangle (previous / next track).
    SkipBack,
    SkipForward,
}

/// The accessibility label of each icon.
pub open spec fn icon_label(i: Icon) -> Seq<char> {
    match i {
        Icon::ChevronLeft => "BACK"@,
        Icon::ChevronRight => "FORWARD"@,
        Icon::ChevronUp => "UP"@,
        Icon::ChevronDown => "DOWN"@,
        Icon::ArrowUp => "ARROW UP"@,
        Icon::ArrowDown => "ARROW DOWN"@,
        Icon::TriangleUp => "ASCENDING"@,
        Icon::TriangleDown => "DESCENDING"@,
        Icon::Plus => "ADD"@,
        Icon::Cross => "CLOSE"@,
        Icon::Refresh => "REFRESH"@,
        Icon::Settings => "SETTINGS"@,
        Icon::Play => "PLAY"@,
        Icon::Pause => "PAUSE"@,
        Icon::Stop => "STOP"@,
        Icon::SkipBack => "PREVIOUS"@,
        Icon::SkipForward => "NEXT"@,
    }
}

impl Icon {
    /// Accessibility label (what a screen reader / UI test / the agent sees for an icon-only
    /// button).
    pub fn label(self) -> (r: &'static str)
        ensures
            r@ == icon_label(self),
    {
        match self {
            Icon::ChevronLeft => "BACK",
            Icon::ChevronRight => "FORWARD",
            Icon::ChevronUp => "UP",
            Icon::ChevronDown => "DOWN",
            Icon::ArrowUp => "ARROW UP",
            Icon::ArrowDown => "ARROW DOWN",
            Icon::TriangleUp => "ASCENDING",
            Icon::TriangleDown => "DESCENDING",
            Icon::Plus => "ADD",
            Icon::Cross => "CLOSE",
            Icon::Refresh => "REFRESH",
            Icon::Settings => "SETTINGS",
            Icon::Play => "PLAY",
            Icon::Pause => "PAUSE",
            Icon::Stop => "STOP",
            Icon::SkipBack => "PREVIOUS",
            Icon::SkipForward => "NEXT",
        }
    }
}

/// Different icons have different labels, so every icon-only button can be addressed by its
/// label.
pub proof fn law_icon_labels_are_distinct(a: Icon, b: Icon)
    requires
        a != b,
    ensures
        icon_label(a) != icon_label(b),
{
    reveal_strlit("BACK");
    reveal_strlit("FORWARD");
    reveal_strlit("UP");
    reveal_strlit("DOWN");
    reveal_strlit("ARROW UP");
    reveal_strlit("ARROW DOWN");
    reveal_strlit("ASCENDING");
    reveal_strlit("DESCENDING");
    reveal_strlit("ADD");
    reveal_strlit("CLOSE");
    reveal_strlit("REFRESH");
    reveal_strlit("SETTINGS");
    reveal_strlit("PLAY");
    reveal_strlit("PAUSE");
    reveal_strlit("STOP");
    reveal_strlit("PREVIOUS");
    reveal_strlit("NEXT");
    let la = icon_label(a);
    let lb = icon_label(b);
    if la.len() == lb.len() {
        assert(la[0] != lb[0] || la[1] != lb[1] || la[la.len() - 1] != lb[lb.len() - 1]);
    }
}

/// Row order of a log feed.
#[derive(Clone, Copy, Debug, PartialEq, Eq, Structural)]
pub enum LogOrder {
    /// Telemetry style: newest at the top, older rows fade.
    NewestFirst,
    /// Terminal style: chronological, view sticks to the bottom while new lines arrive.
    Chronological,
}

/// The order in which a feed of `n` lines shows them (indices into the lines, oldest first).
pub open spec fn feed_rows(n: nat, order: LogOrder) -> Seq<usize> {
    match order {
        LogOrder::NewestFirst => Seq::new(n, |i: int| (n - 1 - i) as usize),
        LogOrder::Chronological => Seq::new(n, |i: int| i as usize),
    }
}

/// The line indices of a feed of `n` lines, top to bottom.
pub fn feed_order(n: usize, order: LogOrder) -> (r: Vec<usize>)
    ensures
        r@ == feed_rows(n as nat, order),
{
    let mut r: Vec<usize> = Vec::new();
    let mut i: usize = 0;
    while i < n
        invariant
            i <= n,
            r@ == feed_rows(n as nat, order).take(i as int),
        decreases n - i,
    {
        let k = match order {
            LogOrder::NewestFirst => n - 1 - i,
            LogOrder::Chronological => i,
        };
        r.push(k);
        assert(r@ =~= feed_rows(n as nat, order).take(i + 1));
        i = i + 1;
    }
    assert(r@ =~= feed_rows(n as nat, order));
    r
}

} // verus!
