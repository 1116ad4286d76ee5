//! Lightweight mode: while Minecraft runs, the launcher window may close and
//! leave only the tray. These are its states, the decisions on process
//! events and tray clicks, and the tray's texts.
use vstd::prelude::*;
use crate::text::{spec_eq_ignore_ascii_case, spec_starts_with};

verus! {

/// A crash that happened while the launcher window was closed, to report
/// once it is back.
#[derive(Debug)]
pub struct PendingCrash {
    pub instance_id: String,
    pub uuid: String,
}

/// The lightweight-mode state of the launcher.
#[derive(Debug)]
pub struct LightweightMode {
    pub active: bool,
    /// The front end's route to reopen the window at.
    pub route: String,
    pub running_processes: usize,
    pub pending_crash: Option<PendingCrash>,
}

/// A Minecraft process event as the launcher broadcasts it.
#[derive(Debug)]
pub struct ProcessEvent {
    pub instance_id: String,
    pub uuid: String,
    pub event: String,
    pub crashed: Option<bool>,
    /// A replay of an earlier event; it changes nothing.
    pub lightweight_replay: bool,
}

/// What the launcher does after a process event.
#[derive(Debug)]
pub enum EventAction {
    /// Nothing (a replayed event).
    Ignore,
    /// Refresh the tray menu only.
    RefreshTray,
    /// Refresh the tray; then, by settings, enter lightweight mode or
    /// minimize the window (a game was launched).
    GameLaunched,
    /// Refresh the tray and bring the launcher back: reopen the window at
    /// `route` when lightweight mode was active, else show it.
    Restore { route: String, was_lightweight: bool },
}

/// What entering lightweight mode may do.
#[derive(Debug)]
pub enum EnterDecision {
    AlreadyActive,
    /// No game runs; the message tells the user why.
    Refused(String),
    /// Open the hidden host window, then commit.
    Proceed,
}

/// What leaving lightweight mode does.
#[derive(Debug)]
pub enum ExitDecision {
    /// Not active: show the existing window.
    ShowMain,
    /// Reopen the window at the route, close the host window, then finish.
    Reopen(String),
}

/// What a tray menu item asks for.
#[derive(Debug)]
pub enum MenuAction {
    ShowLauncher,
    ToggleLightweight,
    Quit,
    LaunchInstance(String),
    Nothing,
}

impl LightweightMode {
    pub fn new() -> (r: LightweightMode)
        ensures
            !r.active,
            r.route@ == "/"@,
            r.running_processes == 0,
            r.pending_crash is None,
    {
        LightweightMode {
            active: false,
            route: crate::text::to_owned("/"),
            running_processes: 0,
            pending_crash: None,
        }
    }

    pub fn is_active(&self) -> (r: bool)
        ensures
            r == self.active,
    {
        self.active
    }

    pub fn has_running_processes(&self) -> (r: bool)
        ensures
            r == (self.running_processes > 0),
    {
        self.running_processes > 0
    }

    /// Lightweight mode can only start while a game runs.
    pub fn enter_decision(&self) -> (r: EnterDecision)
        ensures
            self.active ==> r is AlreadyActive,
            !self.active && self.running_processes == 0 ==> (r matches EnterDecision::Refused(m) && m@
                == "Lightweight mode requires a running Minecraft instance"@),
            !self.active && self.running_processes > 0 ==> r is Proceed,
    {
        if self.active {
            return EnterDecision::AlreadyActive;
        }
        if self.running_processes == 0 {
            return EnterDecision::Refused(
                crate::text::to_owned("Lightweight mode requires a running Minecraft instance"),
            );
        }
        EnterDecision::Proceed
    }

    /// Marks lightweight mode active once its host window exists. `false`
    /// means another entry won the race and the new host window must go.
    pub fn commit_enter(&mut self) -> (r: bool)
        ensures
            r == !old(self).active,
            final(self).active,
            final(self).route == old(self).route,
            final(self).running_processes == old(self).running_processes,
            final(self).pending_crash == old(self).pending_crash,
    {
        if self.active {
            return false;
        }
        self.active = true;
        true
    }

    /// Undoes an entry whose main window could not be closed.
    pub fn abort_enter(&mut self)
        ensures
            !final(self).active,
            final(self).route == old(self).route,
            final(self).running_processes == old(self).running_processes,
            final(self).pending_crash == old(self).pending_crash,
    {
        self.active = false;
    }

    pub fn exit_decision(&self) -> (r: ExitDecision)
        ensures
            !self.active ==> r is ShowMain,
            self.active ==> (r matches ExitDecision::Reopen(route) && route@ == self.route@),
    {
        if !self.active {
            return ExitDecision::ShowMain;
        }
        ExitDecision::Reopen(self.route.clone())
    }

    pub fn finish_exit(&mut self)
        ensures
            !final(self).active,
            final(self).route == old(self).route,
            final(self).running_processes == old(self).running_processes,
            final(self).pending_crash == old(self).pending_crash,
    {
        self.active = false;
    }

    /// Counts running games and decides whether the launcher comes back: a
    /// game that finishes while in lightweight mode brings it back when it
    /// crashed or was the last one; otherwise the last game to finish does.
    /// A crash in lightweight mode is kept for the front end.
    pub fn process_event(&mut self, payload: ProcessEvent) -> (r: EventAction)
        ensures
            payload.lightweight_replay ==> r is Ignore && *final(self) == *old(self),
            !payload.lightweight_replay && payload.event@ == "launched"@ ==> r is GameLaunched
                && final(self).running_processes == (if old(self).running_processes < usize::MAX {
                old(self).running_processes + 1
            } else {
                old(self).running_processes as int
            }) && final(self).active == old(self).active && final(self).route == old(self).route
                && final(self).pending_crash == old(self).pending_crash,
            !payload.lightweight_replay && payload.event@ == "finished"@ ==> ({
                let running = if old(self).running_processes > 0 {
                    old(self).running_processes - 1
                } else {
                    0
                };
                let crashed = payload.crashed == Some(true);
                let restore = if old(self).active {
                    crashed || running == 0
                } else {
                    running == 0
                };
                &&& final(self).running_processes == running
                &&& final(self).route == old(self).route
                &&& (old(self).active && crashed ==> (final(self).pending_crash matches Some(c)
                    && c.instance_id == payload.instance_id && c.uuid == payload.uuid))
                &&& (!(old(self).active && crashed) ==> final(self).pending_crash == old(self).pending_crash)
                &&& (restore ==> !final(self).active && (r matches EventAction::Restore { route, was_lightweight }
                    && route@ == old(self).route@ && was_lightweight == old(self).active))
                &&& (!restore ==> final(self).active == old(self).active && r is RefreshTray)
            }),
            !payload.lightweight_replay && payload.event@ != "launched"@ && payload.event@ != "finished"@
                ==> r is RefreshTray && *final(self) == *old(self),
    {
        if payload.lightweight_replay {
            return EventAction::Ignore;
        }
        let ev = crate::text::chars_of(payload.event.as_str());
        proof {
            reveal_strlit("launched");
            reveal_strlit("finished");
            assert("launched"@[0] != "finished"@[0]);
        }
        if crate::text::eq_str(&ev, "launched") {
            if self.running_processes < usize::MAX {
                self.running_processes = self.running_processes + 1;
            }
            return EventAction::GameLaunched;
        }
        if !crate::text::eq_str(&ev, "finished") {
            return EventAction::RefreshTray;
        }
        if self.running_processes > 0 {
            self.running_processes = self.running_processes - 1;
        }
        let crashed = payload.crashed == Some(true);
        if self.active && crashed {
            self.pending_crash = Some(PendingCrash { instance_id: payload.instance_id, uuid: payload.uuid });
        }
        let restore = if self.active {
            crashed || self.running_processes == 0
        } else {
            self.running_processes == 0
        };
        if restore {
            let was_lightweight = self.active;
            self.active = false;
            return EventAction::Restore { route: self.route.clone(), was_lightweight };
        }
        EventAction::RefreshTray
    }

    /// Remembers the front end's route; only absolute routes count.
    pub fn set_route(&mut self, route: String)
        ensures
            spec_starts_with(route@, "/"@) ==> final(self).route == route,
            !spec_starts_with(route@, "/"@) ==> final(self).route == old(self).route,
            final(self).active == old(self).active,
            final(self).running_processes == old(self).running_processes,
            final(self).pending_crash == old(self).pending_crash,
    {
        if crate::text::str_starts_with(route.as_str(), "/") {
            self.route = route;
        }
    }

    /// Hands out the kept crash once.
    pub fn take_pending_crash(&mut self) -> (r: Option<PendingCrash>)
        ensures
            r == old(self).pending_crash,
            final(self).pending_crash is None,
            final(self).active == old(self).active,
            final(self).route == old(self).route,
            final(self).running_processes == old(self).running_processes,
    {
        let mut taken: Option<PendingCrash> = None;
        std::mem::swap(&mut taken, &mut self.pending_crash);
        taken
    }
}

/// The tray menu's texts in one language.
#[derive(Debug)]
pub struct TrayLabels {
    pub show_launcher: &'static str,
    pub launch_instance: &'static str,
    pub lightweight_mode: &'static str,
    pub quit: &'static str,
    pub running_prefix: &'static str,
}

/// The tray texts for a locale: simplified Chinese for `zh-CN`, traditional
/// Chinese for `zh-TW` (case ignored), English otherwise.
pub fn tray_labels(locale: &str) -> (r: TrayLabels)
    ensures
        spec_eq_ignore_ascii_case(locale@, "zh-CN"@) ==> r.quit@ == "退出"@ && r.show_launcher@
            == "显示 Axolotl 启动器"@,
        !spec_eq_ignore_ascii_case(locale@, "zh-CN"@) && spec_eq_ignore_ascii_case(locale@, "zh-TW"@)
            ==> r.quit@ == "結束"@ && r.show_launcher@ == "顯示 Axolotl 啟動器"@,
        !spec_eq_ignore_ascii_case(locale@, "zh-CN"@) && !spec_eq_ignore_ascii_case(locale@, "zh-TW"@)
            ==> r.quit@ == "Quit"@ && r.show_launcher@ == "Show Axolotl Launcher"@ && r.launch_instance@
            == "Launch instance"@ && r.lightweight_mode@ == "Lightweight mode"@ && r.running_prefix@
            == "Running: "@,
{
    if crate::text::str_eq_ignore_ascii_case(locale, "zh-CN") {
        TrayLabels {
            show_launcher: "显示 Axolotl 启动器",
            launch_instance: "启动实例",
            lightweight_mode: "轻量模式",
            quit: "退出",
            running_prefix: "正在运行：",
        }
    } else if crate::text::str_eq_ignore_ascii_case(locale, "zh-TW") {
        TrayLabels {
            show_launcher: "顯示 Axolotl 啟動器",
            launch_instance: "啟動實例",
            lightweight_mode: "輕量模式",
            quit: "結束",
            running_prefix: "正在執行：",
        }
    } else {
        TrayLabels {
            show_launcher: "Show Axolotl Launcher",
            launch_instance: "Launch instance",
            lightweight_mode: "Lightweight mode",
            quit: "Quit",
            running_prefix: "Running: ",
        }
    }
}

/// Prefix of the tray item that launches an instance.
pub open spec fn launch_prefix() -> Seq<char> {
    "launch-instance:"@
}

/// The menu id of the item that launches `instance_id`.
pub fn launch_item_id(instance_id: &str) -> (r: String)
    ensures
        r@ == launch_prefix() + instance_id@,
{
    crate::text::concat("launch-instance:", instance_id)
}

/// The text of an instance's item: running instances carry the prefix (and
/// cannot be launched again).
pub fn instance_item_label(name: &str, running: bool, running_prefix: &str) -> (r: String)
    ensures
        r@ == (if running {
            running_prefix@ + name@
        } else {
            name@
        }),
{
    if running {
        crate::text::concat(running_prefix, name)
    } else {
        crate::text::to_owned(name)
    }
}

/// What a click on the tray item `id` asks for.
pub fn menu_action(id: &str) -> (r: MenuAction)
    ensures
        id@ == "show-launcher"@ ==> r is ShowLauncher,
        id@ == "lightweight-mode"@ ==> r is ToggleLightweight,
        id@ == "quit"@ ==> r is Quit,
        id@ != "show-launcher"@ && id@ != "lightweight-mode"@ && id@ != "quit"@ && spec_starts_with(
            id@,
            launch_prefix(),
        ) ==> (r matches MenuAction::LaunchInstance(i) && i@ == id@.subrange(16, id@.len() as int)),
        id@ != "show-launcher"@ && id@ != "lightweight-mode"@ && id@ != "quit"@ && !spec_starts_with(
            id@,
            launch_prefix(),
        ) ==> r is Nothing,
{
    let v = crate::text::chars_of(id);
    proof {
        reveal_strlit("show-launcher");
        reveal_strlit("lightweight-mode");
        reveal_strlit("quit");
        assert("show-launcher"@[0] != "lightweight-mode"@[0]);
        assert("show-launcher"@[0] != "quit"@[0]);
        assert("lightweight-mode"@[0] != "quit"@[0]);
    }
    if crate::text::eq_str(&v, "show-launcher") {
        return MenuAction::ShowLauncher;
    }
    if crate::text::eq_str(&v, "lightweight-mode") {
        return MenuAction::ToggleLightweight;
    }
    if crate::text::eq_str(&v, "quit") {
        return MenuAction::Quit;
    }
    if crate::text::str_starts_with(id, "launch-instance:") {
        proof {
            reveal_strlit("launch-instance:");
        }
        return MenuAction::LaunchInstance(crate::text::string_from_range(&v, 16, v.len()));
    }
    MenuAction::Nothing
}

} // verus!
