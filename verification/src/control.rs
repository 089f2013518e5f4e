//! The decisions of the casting loop: which renderer to use, which episode to
//! play next after each event, and what the menu choices mean.

use vstd::prelude::*;
use crate::text::{chars_of, find_chars, first_index};

verus! {

broadcast use vstd::string::group_string_axioms;

/// The name that marks the renderer to cast to.
pub open spec fn renderer_tag() -> Seq<char> {
    seq!['F', 'a', 's', 't', 'C', 'a', 's', 't']
}

/// `s` mentions the renderer tag.
pub open spec fn names_renderer(s: Seq<char>) -> bool {
    first_index(s, renderer_tag()) is Some
}

/// The first renderer whose description mentions `FastCast`.
pub fn choose_render(descriptions: &Vec<String>) -> (r: Option<usize>)
    ensures
        match r {
            Some(i) => i < descriptions@.len() && names_renderer(descriptions@[i as int]@)
                && forall|j: int| 0 <= j < i ==> !names_renderer(#[trigger] descriptions@[j]@),
            None => forall|j: int|
                0 <= j < descriptions@.len() ==> !names_renderer(#[trigger] descriptions@[j]@),
        },
{
    let tag: Vec<char> = vec!['F', 'a', 's', 't', 'C', 'a', 's', 't'];
    assert(tag@ =~= renderer_tag());
    let mut i: usize = 0;
    while i < descriptions.len()
        invariant
            tag@ == renderer_tag(),
            i <= descriptions@.len(),
            forall|j: int| 0 <= j < i ==> !names_renderer(#[trigger] descriptions@[j]@),
        decreases descriptions@.len() - i,
    {
        let text = chars_of(descriptions[i].as_str());
        if find_chars(&text, &tag).is_some() {
            return Some(i);
        }
        i = i + 1;
    }
    None
}

/// What the viewer can ask for while an episode plays, in the order of the
/// menu: next drama, previous episode, next episode, stop casting.
#[derive(Debug, Clone, Copy, PartialEq, Eq, Structural)]
pub enum Control {
    NextDrama,
    PreviousEpisode,
    NextEpisode,
    StopCasting,
}

/// The control at position `selection` of the menu, if there is one.
pub fn control_for(selection: usize) -> (c: Option<Control>)
    ensures
        c == (if selection == 0 {
            Some(Control::NextDrama)
        } else if selection == 1 {
            Some(Control::PreviousEpisode)
        } else if selection == 2 {
            Some(Control::NextEpisode)
        } else if selection == 3 {
            Some(Control::StopCasting)
        } else {
            None
        }),
{
    if selection == 0 {
        Some(Control::NextDrama)
    } else if selection == 1 {
        Some(Control::PreviousEpisode)
    } else if selection == 2 {
        Some(Control::NextEpisode)
    } else if selection == 3 {
        Some(Control::StopCasting)
    } else {
        None
    }
}

/// What the casting loop does next.
#[derive(Debug, Clone, Copy, PartialEq, Eq, Structural)]
pub enum Step {
    /// Play the episode at this position of the current drama.
    Play(usize),
    /// Pick another drama at random.
    NewDrama,
    /// Stop casting.
    Quit,
}

/// Playing on from position `next` of a drama of `len` episodes: that episode
/// if there is one, else another drama.
pub open spec fn play_from(next: int, len: int) -> Step {
    if 0 <= next < len {
        Step::Play(next as usize)
    } else {
        Step::NewDrama
    }
}

/// The step after the viewer's `control` during episode `i` of `len`.
pub open spec fn control_step(i: int, len: int, control: Control) -> Step {
    match control {
        Control::NextDrama => Step::NewDrama,
        Control::PreviousEpisode => Step::Play(
            if i != 0 {
                (i - 1) as usize
            } else {
                i as usize
            },
        ),
        Control::NextEpisode => play_from(i + 1, len),
        Control::StopCasting => Step::Quit,
    }
}

/// The first step for a freshly picked drama of `len` episodes.
pub fn first_step(len: usize) -> (s: Step)
    ensures
        s == play_from(0, len as int),
{
    if 0 < len {
        Step::Play(0)
    } else {
        Step::NewDrama
    }
}

/// The step once episode `i` of `len` has finished playing.
pub fn after_episode(i: usize, len: usize) -> (s: Step)
    requires
        i < len,
    ensures
        s == play_from(i + 1, len as int),
{
    if i + 1 < len {
        Step::Play(i + 1)
    } else {
        Step::NewDrama
    }
}

/// The step after the viewer's `control` during episode `i` of `len`.
pub fn after_control(i: usize, len: usize, control: Control) -> (s: Step)
    requires
        i < len,
    ensures
        s == control_step(i as int, len as int, control),
{
    match control {
        Control::NextDrama => Step::NewDrama,
        Control::PreviousEpisode => Step::Play(
            if i != 0 {
                i - 1
            } else {
                i
            },
        ),
        Control::NextEpisode => after_episode(i, len),
        Control::StopCasting => Step::Quit,
    }
}

/// Every episode the loop plays lies within the drama, going back from the
/// first episode replays it, and a finished episode is followed by the next one
/// while there is one.
pub proof fn law_steps_in_range(i: usize, len: usize, control: Control)
    requires
        i < len,
    ensures
        control_step(i as int, len as int, control) matches Step::Play(j) ==> j < len,
        control == Control::PreviousEpisode && i == 0 ==> control_step(
            i as int,
            len as int,
            control,
        ) == Step::Play(0),
        play_from(i + 1, len as int) matches Step::Play(j) ==> j == i + 1 && j < len,
        i + 1 < len ==> play_from(i + 1, len as int) == Step::Play((i + 1) as usize),
        play_from(0, len as int) == Step::Play(0),
{
}

/// The entries of the main menu, in order.
#[derive(Debug, Clone, Copy, PartialEq, Eq, Structural)]
pub enum MenuChoice {
    /// Cast with the listing from the local cache.
    CastFromCache,
    /// Cast with a listing fetched now.
    CastFromNetwork,
    /// Refresh the cache.
    UpdateCache,
    /// Choose the log level.
    SetLogLevel,
    /// Leave.
    Exit,
}

/// The main-menu entry at position `selection`, if there is one.
pub fn menu_choice(selection: usize) -> (c: Option<MenuChoice>)
    ensures
        c == (if selection == 0 {
            Some(MenuChoice::CastFromCache)
        } else if selection == 1 {
            Some(MenuChoice::CastFromNetwork)
        } else if selection == 2 {
            Some(MenuChoice::UpdateCache)
        } else if selection == 3 {
            Some(MenuChoice::SetLogLevel)
        } else if selection == 4 {
            Some(MenuChoice::Exit)
        } else {
            None
        }),
{
    if selection == 0 {
        Some(MenuChoice::CastFromCache)
    } else if selection == 1 {
        Some(MenuChoice::CastFromNetwork)
    } else if selection == 2 {
        Some(MenuChoice::UpdateCache)
    } else if selection == 3 {
        Some(MenuChoice::SetLogLevel)
    } else if selection == 4 {
        Some(MenuChoice::Exit)
    } else {
        None
    }
}

/// The `RUST_LOG` value for position `selection` of the log-level menu (info,
/// warning, error, default), if there is one.
pub fn log_level_for(selection: usize) -> (level: Option<&'static str>)
    ensures
        match level {
            Some(l) => (selection == 0 && l@ == "info"@) || (selection == 1 && l@ == "warn"@)
                || (selection == 2 && l@ == "error"@) || (selection == 3 && l@ == ""@),
            None => selection > 3,
        },
{
    if selection == 0 {
        Some("info")
    } else if selection == 1 {
        Some("warn")
    } else if selection == 2 {
        Some("error")
    } else if selection == 3 {
        Some("")
    } else {
        None
    }
}

/// The renderer chosen at position `selection` of the device menu, whose
/// first entry asks to search again.
pub fn device_for(selection: usize) -> (d: Option<usize>)
    ensures
        d == (if selection == 0 {
            None
        } else {
            Some((selection - 1) as usize)
        }),
{
    if selection == 0 {
        None
    } else {
        Some(selection - 1)
    }
}

} // verus!
