use crate::digits::{decimal, push_decimal};
use crate::subtitle::{subtitle_text, subtitle_views, Subtitle, SubtitleView};
use vstd::prelude::*;

verus! {

/// One subtitle as SRT text, numbered `index + 1`: its id line, its timing
/// line and its text, each followed by `'\n'`.
pub open spec fn render_record(index: nat, s: SubtitleView) -> Seq<char> {
    decimal(index + 1) + seq!['\n'] + subtitle_text(s) + seq!['\n']
}

/// The SRT text of a sequence of subtitles: each one numbered by its
/// position from one, with a blank line between each two.
pub open spec fn render(subs: Seq<SubtitleView>) -> Seq<char>
    decreases subs.len(),
{
    if subs.len() == 0 {
        Seq::empty()
    } else if subs.len() == 1 {
        render_record(0, subs[0])
    } else {
        render(subs.drop_last()) + seq!['\n'] + render_record(
            (subs.len() - 1) as nat,
            subs.last(),
        )
    }
}

/// Renders the subtitles as SRT text, numbering them from one; an empty
/// slice renders as the empty string.
pub fn to_string(subtitles: &[Subtitle]) -> (r: String)
    ensures
        r@ == render(subtitle_views(subtitles@)),
{
    let ghost views = subtitle_views(subtitles@);
    let mut rendered = String::new();
    let mut i: usize = 0;
    proof {
        assert(views.take(0) =~= Seq::<SubtitleView>::empty());
    }
    while i < subtitles.len()
        invariant
            views == subtitle_views(subtitles@),
            i <= subtitles.len(),
            rendered@ == render(views.take(i as int)),
        decreases subtitles.len() - i,
    {
        let subtitle = &subtitles[i];
        let ghost before = rendered@;
        if i > 0 {
            rendered.push('\n');
        }
        push_decimal(&mut rendered, i + 1);
        rendered.push('\n');
        subtitle.push_to(&mut rendered);
        rendered.push('\n');
        proof {
            let next = views.take(i + 1);
            assert(next.drop_last() =~= views.take(i as int));
            assert(next.last() == subtitle@);
            if i > 0 {
                assert(rendered@ =~= before + seq!['\n'] + render_record(i as nat, subtitle@));
            } else {
                assert(next =~= seq![subtitle@]);
                assert(before =~= Seq::<char>::empty());
                assert(rendered@ =~= render_record(0, subtitle@));
            }
        }
        i = i + 1;
    }
    proof {
        assert(views.take(subtitles.len() as int) =~= views);
    }
    rendered
}

} // verus!
