//! Choosing where and how the compositor runs.

use crate::config::opt_text;
use crate::text::{str_eq, texts};
use vstd::prelude::*;

verus! {

/// Where the compositor runs.
#[derive(Debug, Clone, Copy, PartialEq, Eq, Structural)]
pub enum Backend {
    /// In a window of another session.
    Winit,
    /// On the screen itself.
    Drm,
}

fn names(args: &Vec<String>, name: &str) -> (r: bool)
    ensures
        r == texts(args@).contains(name@),
{
    let mut i: usize = 0;
    while i < args.len()
        invariant
            0 <= i <= args.len(),
            forall|k: int| 0 <= k < i ==> (#[trigger] args@[k])@ != name@,
        decreases args.len() - i,
    {
        if str_eq(args[i].as_str(), name) {
            assert(texts(args@)[i as int] == name@);
            return true;
        }
        i = i + 1;
    }
    assert forall|k: int| 0 <= k < texts(args@).len() implies texts(args@)[k] != name@ by {
        assert(args@[k]@ != name@);
    }
    false
}

/// Chooses where the compositor runs: on the screen if `--drm` is given; else in a
/// window if `--winit` is given or there is another session, of either kind.
pub fn choose_backend(args: &Vec<String>, wayland_display: bool, display: bool) -> (r: Backend)
    ensures
        r == (if texts(args@).contains("--drm"@) {
            Backend::Drm
        } else if texts(args@).contains("--winit"@) || wayland_display || display {
            Backend::Winit
        } else {
            Backend::Drm
        }),
{
    let winit: bool = names(args, "--winit");
    if names(args, "--drm") {
        Backend::Drm
    } else if winit || wayland_display || display {
        Backend::Winit
    } else {
        Backend::Drm
    }
}

/// A mode of a screen.
#[derive(Debug, Clone, Copy, PartialEq, Eq, Structural)]
pub struct ScreenMode {
    pub width: u16,
    pub height: u16,
    pub refresh_hz: u32,
    pub preferred: bool,
}

/// The number of the mode that is used: the first one that the screen prefers, or
/// else the first one.
pub open spec fn chosen_mode(modes: Seq<ScreenMode>) -> Option<int> {
    if exists|i: int| 0 <= i < modes.len() && (#[trigger] modes[i]).preferred {
        Some(first_preferred(modes))
    } else if modes.len() > 0 {
        Some(0)
    } else {
        None
    }
}

/// The number of the first mode that the screen prefers.
pub open spec fn first_preferred(modes: Seq<ScreenMode>) -> int
    decreases modes.len(),
{
    if modes.len() == 0 || modes[0].preferred {
        0
    } else {
        1 + first_preferred(modes.drop_first())
    }
}

proof fn lemma_first_preferred(modes: Seq<ScreenMode>, i: int)
    requires
        0 <= i < modes.len(),
        modes[i].preferred,
        forall|j: int| 0 <= j < i ==> !(#[trigger] modes[j]).preferred,
    ensures
        first_preferred(modes) == i,
    decreases i,
{
    if i > 0 {
        assert(!modes[0].preferred);
        let rest = modes.drop_first();
        assert forall|j: int| 0 <= j < i - 1 implies !(#[trigger] rest[j]).preferred by {
            assert(rest[j] == modes[j + 1]);
        }
        lemma_first_preferred(rest, i - 1);
    }
}

/// Chooses the mode of a screen.
pub fn choose_mode(modes: &Vec<ScreenMode>) -> (r: Option<usize>)
    ensures
        match r {
            Some(i) => chosen_mode(modes@) == Some(i as int) && i < modes.len(),
            None => chosen_mode(modes@) is None,
        },
{
    let mut i: usize = 0;
    while i < modes.len()
        invariant
            0 <= i <= modes.len(),
            forall|k: int| 0 <= k < i ==> !(#[trigger] modes@[k]).preferred,
        decreases modes.len() - i,
    {
        if modes[i].preferred {
            proof {
                lemma_first_preferred(modes@, i as int);
            }
            return Some(i);
        }
        i = i + 1;
    }
    if modes.len() > 0 {
        Some(0)
    } else {
        None
    }
}

/// Chooses the controller that drives a connector: the one that does so already,
/// or else the first one there is.
pub fn choose_crtc(current: Option<u32>, crtcs: &Vec<u32>) -> (r: Option<u32>)
    ensures
        r == chosen_crtc(current, crtcs@),
{
    match current {
        Some(crtc) => Some(crtc),
        None => if crtcs.len() > 0 {
            Some(crtcs[0])
        } else {
            None
        },
    }
}

/// A connector: whether a screen is connected, its modes, and the controller that
/// drives it already.
pub struct Connector {
    pub connected: bool,
    pub modes: Vec<ScreenMode>,
    pub current_crtc: Option<u32>,
}

/// The controller that drives a connector.
pub open spec fn chosen_crtc(current: Option<u32>, crtcs: Seq<u32>) -> Option<u32> {
    match current {
        Some(crtc) => Some(crtc),
        None => if crtcs.len() > 0 {
            Some(crtcs[0])
        } else {
            None
        },
    }
}

/// Decides how a connector is used: with a mode and a controller, and not at all
/// if no screen is connected or there is no mode or no controller for it.
pub fn plan_output(connector: &Connector, crtcs: &Vec<u32>) -> (r: Option<(usize, u32)>)
    ensures
        r is Some <==> connector.connected && chosen_mode(connector.modes@) is Some && chosen_crtc(
            connector.current_crtc,
            crtcs@,
        ) is Some,
        r matches Some((mode, crtc)) ==> chosen_mode(connector.modes@) == Some(mode as int)
            && mode < connector.modes@.len() && chosen_crtc(connector.current_crtc, crtcs@) == Some(
            crtc,
        ),
{
    if !connector.connected {
        return None;
    }
    match choose_mode(&connector.modes) {
        Some(mode) => match choose_crtc(connector.current_crtc, crtcs) {
            Some(crtc) => Some((mode, crtc)),
            None => None,
        },
        None => None,
    }
}

/// The refresh rate of a mode in thousandths of a hertz. Rates beyond the range of
/// the result wrap around.
pub fn refresh_millihertz(mode: ScreenMode) -> (r: i32)
    requires
        mode.refresh_hz * 1000 <= u32::MAX,
    ensures
        mode.refresh_hz * 1000 <= i32::MAX ==> r == mode.refresh_hz * 1000,
        mode.refresh_hz * 1000 > i32::MAX ==> r == mode.refresh_hz * 1000 - 0x1_0000_0000,
{
    let rate: u32 = mode.refresh_hz * 1000;
    assert(rate > 0x7fff_ffff ==> (rate as i32) == rate - 0x1_0000_0000) by (bit_vector);
    rate as i32
}

/// Where the script lies that is run at the start, under the home directory or,
/// without one, under `/root`.
pub fn autostart_script(home: Option<String>) -> (path: String)
    ensures
        path@ == (match opt_text(home) {
            Some(h) => h,
            None => "/root"@,
        }) + "/.config/lingxi/autostart.sh"@,
{
    let base = match home {
        Some(h) => h,
        None => "/root".to_owned(),
    };
    base.concat("/.config/lingxi/autostart.sh")
}

/// The script that is run at the start, if it is there.
pub fn spawn_autostart_pub(script: String, exists_there: bool) -> (r: Option<String>)
    ensures
        r == (if exists_there {
            Some(script)
        } else {
            None
        }),
{
    if exists_there {
        Some(script)
    } else {
        None
    }
}

/// A mode that the screen prefers is never passed over, and a screen with any mode
/// gets one.
pub proof fn law_preferred_mode_chosen(modes: Seq<ScreenMode>)
    ensures
        modes.len() > 0 ==> chosen_mode(modes) is Some,
        chosen_mode(modes) matches Some(i) ==> 0 <= i < modes.len() && (modes[i].preferred || forall|
            j: int,
        |
            0 <= j < modes.len() ==> !(#[trigger] modes[j]).preferred),
{
    if exists|i: int| 0 <= i < modes.len() && (#[trigger] modes[i]).preferred {
        lemma_some_preferred(modes);
    }
}

proof fn lemma_some_preferred(modes: Seq<ScreenMode>)
    requires
        exists|i: int| 0 <= i < modes.len() && (#[trigger] modes[i]).preferred,
    ensures
        0 <= first_preferred(modes) < modes.len(),
        modes[first_preferred(modes)].preferred,
    decreases modes.len(),
{
    if !modes[0].preferred {
        let rest = modes.drop_first();
        let i = choose|i: int| 0 <= i < modes.len() && (#[trigger] modes[i]).preferred;
        assert(rest[i - 1].preferred);
        lemma_some_preferred(rest);
        assert(rest[first_preferred(rest)] == modes[first_preferred(rest) + 1]);
    }
}

/// The mode that is used is the first one that the screen prefers; without such a mode it
/// is the first one of all.
pub proof fn law_first_preferred_mode(modes: Seq<ScreenMode>, i: int)
    requires
        chosen_mode(modes) == Some(i),
    ensures
        0 <= i < modes.len(),
        forall|j: int| 0 <= j < i ==> !(#[trigger] modes[j]).preferred,
        !modes[i].preferred ==> i == 0 && forall|j: int|
            0 <= j < modes.len() ==> !(#[trigger] modes[j]).preferred,
{
    law_preferred_mode_chosen(modes);
    if exists|k: int| 0 <= k < modes.len() && (#[trigger] modes[k]).preferred {
        lemma_none_before(modes);
    }
}

proof fn lemma_none_before(modes: Seq<ScreenMode>)
    ensures
        0 <= first_preferred(modes) <= modes.len(),
        forall|j: int|
            0 <= j < first_preferred(modes) ==> !(#[trigger] modes[j]).preferred,
    decreases modes.len(),
{
    if modes.len() > 0 && !modes[0].preferred {
        let rest = modes.drop_first();
        lemma_none_before(rest);
        assert forall|j: int| 0 <= j < first_preferred(modes) implies !(
        #[trigger] modes[j]).preferred by {
            if j > 0 {
                assert(modes[j] == rest[j - 1]);
            }
        }
    }
}

/// A connector keeps the controller that drives it; only one that has none gets the first
/// there is. It is used if and only if a screen with a mode is connected and there is a
/// controller for it.
pub proof fn law_connector_use(
    connector: Connector,
    crtcs: Vec<u32>,
    r: Option<(usize, u32)>,
)
    requires
        call_ensures(plan_output, (&connector, &crtcs), r),
    ensures
        r is Some <==> connector.connected && connector.modes@.len() > 0 && (
        connector.current_crtc is Some || crtcs@.len() > 0),
        r matches Some((mode, crtc)) ==> {
            &&& connector.current_crtc is Some ==> Some(crtc) == connector.current_crtc
            &&& connector.current_crtc is None ==> crtc == crtcs@[0]
            &&& mode < connector.modes@.len()
            &&& forall|j: int| 0 <= j < mode ==> !(#[trigger] connector.modes@[j]).preferred
            &&& !connector.modes@[mode as int].preferred ==> mode == 0
        },
{
    law_preferred_mode_chosen(connector.modes@);
    if let Some((mode, crtc)) = r {
        law_first_preferred_mode(connector.modes@, mode as int);
    }
}

/// What the arguments ask for comes before what the session is: `--drm` before all, then
/// `--winit`; without either the compositor runs in a window if and only if it is started
/// within another session.
pub proof fn law_arguments_first(
    args: Vec<String>,
    wayland_display: bool,
    display: bool,
    r: Backend,
)
    requires
        call_ensures(choose_backend, (&args, wayland_display, display), r),
    ensures
        (exists|i: int| 0 <= i < args@.len() && (#[trigger] args@[i])@ == "--drm"@) ==> r
            == Backend::Drm,
        (forall|i: int| 0 <= i < args@.len() ==> (#[trigger] args@[i])@ != "--drm"@) ==> {
            r == Backend::Winit <==> wayland_display || display || (exists|i: int|
                0 <= i < args@.len() && (#[trigger] args@[i])@ == "--winit"@)
        },
{
    let all = texts(args@);
    assert forall|name: Seq<char>| #[trigger] all.contains(name) <==> exists|i: int|
        0 <= i < args@.len() && (#[trigger] args@[i])@ == name by {
        if all.contains(name) {
            let k = choose|k: int| 0 <= k < all.len() && all[k] == name;
            assert(args@[k]@ == name);
        }
        if exists|i: int| 0 <= i < args@.len() && (#[trigger] args@[i])@ == name {
            let k = choose|i: int| 0 <= i < args@.len() && (#[trigger] args@[i])@ == name;
            assert(all[k] == name);
        }
    }
}

} // verus!
