use crate::time::{format_ts, min_nat, Duration, Timestamp, MAX_MILLIS};
use vstd::prelude::*;

verus! {

/// A single SRT subtitle: its `start`, its `duration` (end minus start) and
/// its `text`. Its id is not stored: rendering numbers subtitles from one.
///
/// The `start` and `duration` are always valid, but the `text` must not hold
/// an empty line for the subtitle to render as itself: a blank line separates
/// subtitles in SRT text.
#[derive(Clone, Debug, Default, PartialEq, Eq, PartialOrd, Ord, Hash)]
pub struct Subtitle {
    pub start: Timestamp,
    pub duration: Duration,
    pub text: String,
}

/// What a [`Subtitle`] holds: its start and duration in milliseconds, and
/// its text.
pub struct SubtitleView {
    pub start: nat,
    pub duration: nat,
    pub text: Seq<char>,
}

impl View for Subtitle {
    type V = SubtitleView;

    open spec fn view(&self) -> SubtitleView {
        SubtitleView { start: self.start@, duration: self.duration@, text: self.text@ }
    }
}

/// The views of a sequence of subtitles.
pub open spec fn subtitle_views(s: Seq<Subtitle>) -> Seq<SubtitleView> {
    s.map_values(|x: Subtitle| x@)
}

/// The end of a subtitle: its start plus its duration, saturated.
pub open spec fn end_of(s: SubtitleView) -> nat {
    min_nat(s.start + s.duration, MAX_MILLIS as nat)
}

/// The divider between the two timestamps of a timing line, `" --> "`.
pub open spec fn divider() -> Seq<char> {
    seq![' ', '-', '-', '>', ' ']
}

/// The timing line of a subtitle: `start --> end`.
pub open spec fn timing_line(s: SubtitleView) -> Seq<char> {
    format_ts(s.start) + divider() + format_ts(end_of(s))
}

/// The display form of a subtitle: its timing line, a `'\n'`, its text.
pub open spec fn subtitle_text(s: SubtitleView) -> Seq<char> {
    timing_line(s) + seq!['\n'] + s.text
}

impl Subtitle {
    /// Renders as `"<start> --> <end>\n<text>"`.
    pub fn to_string(&self) -> (r: String)
        ensures
            r@ == subtitle_text(self@),
    {
        let mut out = String::new();
        self.push_to(&mut out);
        out
    }

    /// Appends `"<start> --> <end>\n<text>"` to `out`.
    pub(crate) fn push_to(&self, out: &mut String)
        ensures
            final(out)@ == old(out)@ + subtitle_text(self@),
    {
        let end = self.start + self.duration;
        self.start.push_to(out);
        out.push(' ');
        out.push('-');
        out.push('-');
        out.push('>');
        out.push(' ');
        end.push_to(out);
        out.push('\n');
        out.append(self.text.as_str());
        assert(final(out)@ =~= old(out)@ + subtitle_text(self@));
    }
}

} // verus!
