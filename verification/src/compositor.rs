//! Working with the compositor: the script that reports its windows, what
//! becomes of running it, and bringing a window to the front.

use crate::fault::{agrees, general, Fault, FaultView};
use crate::input::opt_text;
use crate::json::{json_string, json_text};
use crate::outcome::checked;
use crate::text::{decimal, same, show_i64, show_u64, texts};
use vstd::prelude::*;

verus! {

/// The object that receives what the script reports.
pub const BRIDGE_PATH: &'static str = "/org/openai/CodexComputerUse/KWinBridge";

/// The interface that receives what the script reports.
pub const BRIDGE_INTERFACE: &'static str = "org.openai.CodexComputerUse.KWinBridge";

/// The oldest version of the screenshot interface that can be worked with.
pub const MIN_SCREENSHOT_VERSION: u32 = 5;

/// The script that reports the compositor's windows and the active one.
pub open spec fn script(destination: Seq<char>, request_id: int) -> Seq<char> {
    "const snapshot = {\nwindows: workspace.windowList().map(w => w.internalId.toString()),\nactiveWindow: workspace.activeWindow ? workspace.activeWindow.internalId.toString() : null\n};\ncallDBus("@
        + json_string(destination) + ", "@ + json_string(BRIDGE_PATH@) + ", "@ + json_string(
        BRIDGE_INTERFACE@,
    ) + ", \"Snapshot\", "@ + decimal(request_id) + ", JSON.stringify(snapshot));\n"@
}

/// Writes the script that reports, to `destination` and under the given
/// number, the compositor's windows and the active one.
pub fn snapshot_script(destination: &str, request_id: i32) -> (r: String)
    ensures
        r@ == script(destination@, request_id as int),
{
    let mut text =
        "const snapshot = {\nwindows: workspace.windowList().map(w => w.internalId.toString()),\nactiveWindow: workspace.activeWindow ? workspace.activeWindow.internalId.toString() : null\n};\ncallDBus(".to_owned();
    text.append(json_text(destination).as_str());
    text.append(", ");
    text.append(json_text(BRIDGE_PATH).as_str());
    text.append(", ");
    text.append(json_text(BRIDGE_INTERFACE).as_str());
    text.append(", \"Snapshot\", ");
    text.append(show_i64(request_id as i64).as_str());
    text.append(", JSON.stringify(snapshot));\n");
    text
}

/// The number under which a request to the compositor is answered.
pub fn request_id(request_number: u64) -> (r: i32)
    ensures
        r == request_number % 0x8000_0000,
{
    (request_number % 0x8000_0000) as i32
}

/// The name under which the script of a request is loaded.
pub open spec fn plugin(process: int, request_number: int) -> Seq<char> {
    "codex_computer_use_"@ + decimal(process) + "_"@ + decimal(request_number)
}

/// The name under which the script of a request is loaded.
pub fn plugin_name(process: u32, request_number: u64) -> (r: String)
    ensures
        r@ == plugin(process as int, request_number as int),
{
    let mut name = "codex_computer_use_".to_owned();
    name.append(show_u64(process as u64).as_str());
    name.append("_");
    name.append(show_u64(request_number).as_str());
    name
}

/// Refuses a version of the screenshot interface that is too old.
pub fn check_screenshot_version(version: u32) -> (r: Result<(), Fault>)
    ensures
        agrees(
            r,
            if version < MIN_SCREENSHOT_VERSION {
                Err(
                    general(
                        "KWin ScreenShot2 version "@ + decimal(version as int)
                            + " is unsupported; version 5 or newer is required"@,
                    ),
                )
            } else {
                Ok(())
            },
        ),
{
    if version < MIN_SCREENSHOT_VERSION {
        let mut message = "KWin ScreenShot2 version ".to_owned();
        message.append(show_u64(version as u64).as_str());
        message.append(" is unsupported; version 5 or newer is required");
        return Err(Fault::new(message));
    }
    Ok(())
}

/// What the compositor reports of its windows.
#[derive(Debug)]
pub struct CompositorSnapshot {
    pub windows: Vec<String>,
    pub active_window: Option<String>,
}

/// What the compositor reports of its windows.
#[verifier::ext_equal]
pub struct SnapshotView {
    pub windows: Seq<Seq<char>>,
    pub active_window: Option<Seq<char>>,
}

impl View for CompositorSnapshot {
    type V = SnapshotView;

    open spec fn view(&self) -> SnapshotView {
        SnapshotView {
            windows: texts(self.windows@),
            active_window: opt_text(self.active_window),
        }
    }
}

/// The result of an operation and of the clean-up after it, where both
/// failures are reported in one message.
pub open spec fn after_cleanup(
    operation: Result<SnapshotView, FaultView>,
    cleanup: Result<(), FaultView>,
    what: Seq<char>,
    link: Seq<char>,
) -> Result<SnapshotView, FaultView> {
    match (operation, cleanup) {
        (Ok(snapshot), Ok(())) => Ok(snapshot),
        (Err(a), Err(b)) => Err(general(what + a.message + link + b.message)),
        (Err(e), Ok(())) => Err(e),
        (Ok(_), Err(e)) => Err(e),
    }
}

/// The outcome of a result that carries a snapshot.
pub open spec fn snapshot_of(r: Result<CompositorSnapshot, Fault>) -> Result<
    SnapshotView,
    FaultView,
> {
    match r {
        Ok(s) => Ok(s@),
        Err(f) => Err(f@),
    }
}

fn combine(
    operation: Result<CompositorSnapshot, Fault>,
    cleanup: Result<(), Fault>,
    what: &str,
    link: &str,
) -> (r: Result<CompositorSnapshot, Fault>)
    ensures
        agrees(
            r,
            after_cleanup(
                snapshot_of(operation),
                checked(cleanup),
                what@,
                link@,
            ),
        ),
{
    match (operation, cleanup) {
        (Ok(snapshot), Ok(())) => Ok(snapshot),
        (Err(a), Err(b)) => {
            let mut message = what.to_owned();
            message.append(a.message.as_str());
            message.append(link);
            message.append(b.message.as_str());
            Err(Fault::new(message))
        },
        (Err(fault), Ok(())) => Err(fault),
        (Ok(_), Err(fault)) => Err(fault),
    }
}

/// The result of running the script and of removing its file.
pub fn after_removal(
    operation: Result<CompositorSnapshot, Fault>,
    cleanup: Result<(), Fault>,
) -> (r: Result<CompositorSnapshot, Fault>)
    ensures
        agrees(
            r,
            after_cleanup(
                snapshot_of(operation),
                checked(cleanup),
                "KWin snapshot operation failed: "@,
                "; temp-file cleanup also failed: "@,
            ),
        ),
{
    combine(
        operation,
        cleanup,
        "KWin snapshot operation failed: ",
        "; temp-file cleanup also failed: ",
    )
}

/// The result of running the loaded script and of unloading it.
pub fn after_unloading(
    operation: Result<CompositorSnapshot, Fault>,
    cleanup: Result<(), Fault>,
) -> (r: Result<CompositorSnapshot, Fault>)
    ensures
        agrees(
            r,
            after_cleanup(
                snapshot_of(operation),
                checked(cleanup),
                "KWin discovery script operation failed: "@,
                "; unloading also failed: "@,
            ),
        ),
{
    combine(
        operation,
        cleanup,
        "KWin discovery script operation failed: ",
        "; unloading also failed: ",
    )
}

/// Whether a loaded script can be run; a negative number says that it was not
/// loaded.
pub fn check_script_id(script_id: i32) -> (r: Result<(), Fault>)
    ensures
        agrees(
            r,
            if script_id < 0 {
                Err(general("KWin rejected the discovery script"@))
            } else {
                Ok(())
            },
        ),
{
    if script_id < 0 {
        return Err(Fault::of("KWin rejected the discovery script"));
    }
    Ok(())
}

/// What is said of a script that the compositor did or did not unload.
pub fn check_unloaded(unloaded: bool) -> (r: Result<(), Fault>)
    ensures
        agrees(
            r,
            if unloaded {
                Ok(())
            } else {
                Err(general("KWin refused to unload the discovery script"@))
            },
        ),
{
    if unloaded {
        Ok(())
    } else {
        Err(Fault::of("KWin refused to unload the discovery script"))
    }
}

/// Whether something can be done to a window: it has to be listed.
pub open spec fn listed_check(verb: Seq<char>, uuid: Seq<char>, windows: Seq<Seq<char>>) -> Result<
    (),
    FaultView,
> {
    if windows.contains(uuid) {
        Ok(())
    } else {
        Err(general("cannot "@ + verb + " stale KWin window UUID "@ + uuid))
    }
}

/// Fails for a window that is not listed.
pub fn ensure_listed(verb: &str, uuid: &str, windows: &Vec<String>) -> (r: Result<(), Fault>)
    ensures
        agrees(r, listed_check(verb@, uuid@, texts(windows@))),
{
    let mut i: usize = 0;
    while i < windows.len()
        invariant
            i <= windows@.len(),
            forall|j: int| 0 <= j < i ==> texts(windows@)[j] != uuid@,
        decreases windows@.len() - i,
    {
        if same(windows[i].as_str(), uuid) {
            assert(texts(windows@)[i as int] == uuid@);
            return Ok(());
        }
        i += 1;
    }
    let mut message = "cannot ".to_owned();
    message.append(verb);
    message.append(" stale KWin window UUID ");
    message.append(uuid);
    Err(Fault::new(message))
}

/// How long to wait, in milliseconds, before the active window is asked for
/// the next time after `n` times; `None` where it is not asked for again.
pub open spec fn pause(n: nat) -> Option<u64> {
    if n == 0 {
        Some(0)
    } else if n == 1 {
        Some(100)
    } else if n == 2 {
        Some(200)
    } else if n == 3 {
        Some(300)
    } else {
        None
    }
}

/// What follows in bringing a window to the front.
#[derive(Debug)]
pub enum Front<F> {
    /// The window is the active one.
    Reached,
    /// Wait so many milliseconds and ask for the active window.
    Ask(u64),
    Failed(F),
}

/// Bringing a window to the front: how often the active window was asked for.
#[derive(Debug)]
pub struct Activation {
    pub uuid: String,
    pub asked: usize,
}

/// What follows when the active window was asked for `n` times and the last
/// reply was `active`.
pub open spec fn front(uuid: Seq<char>, n: nat, active: Option<Seq<char>>) -> Front<FaultView> {
    if active == Some(uuid) {
        Front::Reached
    } else {
        match pause(n) {
            Some(ms) => Front::Ask(ms),
            None => Front::Failed(
                general(
                    "KWin did not activate window UUID "@ + uuid
                        + " within verification deadline"@,
                ),
            ),
        }
    }
}

impl Activation {
    /// Begins with a listed window. Gives what the window runner has to run,
    /// after which the active window is asked for at once.
    pub fn start(uuid: &str, windows: &Vec<String>) -> (r: Result<(Activation, String), Fault>)
        ensures
            match (r, listed_check("activate"@, uuid@, texts(windows@))) {
                (Ok((a, id)), Ok(())) => a.uuid@ == uuid@ && a.asked == 0 && id@ == "0_"@ + uuid@,
                (Err(f), Err(e)) => f@ == e,
                _ => false,
            },
    {
        match ensure_listed("activate", uuid, windows) {
            Ok(()) => {
                let mut id = "0_".to_owned();
                id.append(uuid);
                Ok((Activation { uuid: uuid.to_owned(), asked: 0 }, id))
            },
            Err(fault) => Err(fault),
        }
    }

    /// Takes the active window that was reported.
    pub fn reported(&mut self, active: &Option<String>) -> (r: Front<Fault>)
        requires
            old(self).asked < usize::MAX,
        ensures
            final(self).uuid@ == old(self).uuid@,
            final(self).asked == old(self).asked + 1,
            match (r, front(old(self).uuid@, (old(self).asked + 1) as nat, opt_text(*active))) {
                (Front::Reached, Front::Reached) => true,
                (Front::Ask(a), Front::Ask(b)) => a == b,
                (Front::Failed(f), Front::Failed(e)) => f@ == e,
                _ => false,
            },
    {
        self.asked = self.asked + 1;
        if let Some(uuid) = active {
            if same(uuid.as_str(), self.uuid.as_str()) {
                return Front::Reached;
            }
        }
        match self.asked {
            1 => Front::Ask(100),
            2 => Front::Ask(200),
            3 => Front::Ask(300),
            _ => {
                let mut message = "KWin did not activate window UUID ".to_owned();
                message.append(self.uuid.as_str());
                message.append(" within verification deadline");
                Front::Failed(Fault::new(message))
            },
        }
    }
}

/// A window counts as brought to the front only where it was reported to be
/// the active one, and it is asked for no more than four times.
pub proof fn law_activation_is_verified(uuid: Seq<char>, n: nat, active: Option<Seq<char>>)
    ensures
        front(uuid, n, active) is Reached <==> active == Some(uuid),
        front(uuid, n, active) is Ask ==> n < 4,
{
}

/// The active window is asked for once more after a tenth, two tenths and three
/// tenths of a second, as long as it is another, and then no more.
pub proof fn law_activation_is_awaited(uuid: Seq<char>, n: nat, active: Option<Seq<char>>)
    requires
        active != Some(uuid),
        n > 0,
    ensures
        n < 4 ==> front(uuid, n, active) == Front::Ask::<FaultView>((100 * n) as u64),
        n >= 4 ==> front(uuid, n, active) is Failed,
{
}

/// Nothing is done to a window that is not listed.
pub proof fn law_only_listed_windows_are_worked_with(
    verb: Seq<char>,
    uuid: Seq<char>,
    windows: Seq<Seq<char>>,
    i: int,
)
    ensures
        0 <= i < windows.len() && windows[i] == uuid ==> listed_check(verb, uuid, windows) is Ok,
        (forall|j: int| 0 <= j < windows.len() ==> #[trigger] windows[j] != uuid) ==> listed_check(
            verb,
            uuid,
            windows,
        ) is Err,
{
}

} // verus!
