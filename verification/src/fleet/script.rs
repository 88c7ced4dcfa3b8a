//! Fixed sequences of commands for a puck.
//!
//! A script is run line by line, in order, and ends at the first line that
//! fails.

use crate::text;
use vstd::prelude::*;

verus! {

/// One line of a script.
#[derive(Debug)]
pub enum Line {
    /// Tell the user.
    Say(String),
    /// Run on the puck; only a failure to run adb counts.
    Plain(String),
    /// Run on the puck within that many seconds; its exit status counts.
    Checked(String, u32),
    /// Wait that many milliseconds.
    Sleep(u64),
}

/// What a line says.
pub ghost enum LineView {
    Say(Seq<char>),
    Plain(Seq<char>),
    Checked(Seq<char>, u32),
    Sleep(u64),
}

impl View for Line {
    type V = LineView;

    open spec fn view(&self) -> LineView {
        match *self {
            Line::Say(m) => LineView::Say(m@),
            Line::Plain(c) => LineView::Plain(c@),
            Line::Checked(c, secs) => LineView::Checked(c@, secs),
            Line::Sleep(ms) => LineView::Sleep(ms),
        }
    }
}

/// What a script says.
pub open spec fn lines(s: Seq<Line>) -> Seq<LineView> {
    s.map_values(|l: Line| l@)
}

/// The command that stops the tracker app.
pub open spec fn stop_line() -> LineView {
    LineView::Plain("am force-stop com.mapperlocalizer.questtracker"@)
}

/// The commands that bring the tracker app up: defeat the proximity gate, clear
/// the USB dialog that hijacks the foreground, and launch.
pub open spec fn start_lines() -> Seq<LineView> {
    seq![
        LineView::Plain("am broadcast -a com.oculus.vrpowermanager.prox_close"@),
        LineView::Plain("am force-stop com.oculus.os.vrusb"@),
        LineView::Plain("am start -n com.mapperlocalizer.questtracker/.MainActivity"@),
    ]
}

/// Stop the tracker app.
pub fn stop_tracker() -> (r: Line)
    ensures
        r@ == stop_line(),
{
    Line::Plain("am force-stop com.mapperlocalizer.questtracker".to_string())
}

/// Bring the tracker app up.
pub fn start_tracker() -> (r: Vec<Line>)
    ensures
        lines(r@) == start_lines(),
{
    let mut s: Vec<Line> = Vec::new();
    s.push(Line::Plain("am broadcast -a com.oculus.vrpowermanager.prox_close".to_string()));
    s.push(Line::Plain("am force-stop com.oculus.os.vrusb".to_string()));
    s.push(Line::Plain("am start -n com.mapperlocalizer.questtracker/.MainActivity".to_string()));
    proof {
        assert(lines(s@) =~= start_lines());
    }
    s
}

/// The tracker's configuration, as it is handed to `printf`.
pub open spec fn tracker_config(host: Seq<char>, port: u16, device: u8) -> Seq<char> {
    "host="@ + host + "\\nport="@ + text::decimal_of(port as nat) + "\\ndevice="@
        + text::decimal_of(device as nat) + "\\ncontrollers=0\\n"@
}

/// The command that writes the tracker's configuration.
pub open spec fn config_line(host: Seq<char>, port: u16, device: u8) -> Seq<char> {
    "printf '"@ + tracker_config(host, port, device)
        + "' > /sdcard/Android/data/com.mapperlocalizer.questtracker/files/config.txt"@
}

/// The script that points the tracker's stream at `host:port`, stamped
/// `device`. The configuration is read once at startup, so the app restarts.
pub open spec fn configure_lines(host: Seq<char>, port: u16, device: u8) -> Seq<LineView> {
    seq![
        LineView::Plain(
            "mkdir -p /sdcard/Android/data/com.mapperlocalizer.questtracker/files"@,
        ),
        LineView::Plain(config_line(host, port, device)),
        stop_line(),
        LineView::Sleep(300),
    ] + start_lines()
}

/// Point the tracker's stream at `host:port`, stamped `device`.
pub fn configure_tracker(host: &str, port: u16, device: u8) -> (r: Vec<Line>)
    ensures
        lines(r@) == configure_lines(host@, port, device),
{
    let mut cfg = text::glue3("host=", host, "\\nport=");
    cfg.append(text::decimal(port as u64).as_str());
    cfg.append("\\ndevice=");
    cfg.append(text::decimal(device as u64).as_str());
    cfg.append("\\ncontrollers=0\\n");
    let write = text::glue3(
        "printf '",
        cfg.as_str(),
        "' > /sdcard/Android/data/com.mapperlocalizer.questtracker/files/config.txt",
    );
    let mut s: Vec<Line> = Vec::new();
    s.push(
        Line::Plain(
            "mkdir -p /sdcard/Android/data/com.mapperlocalizer.questtracker/files".to_string(),
        ),
    );
    s.push(Line::Plain(write));
    s.push(stop_tracker());
    s.push(Line::Sleep(300));
    s.push(Line::Plain("am broadcast -a com.oculus.vrpowermanager.prox_close".to_string()));
    s.push(Line::Plain("am force-stop com.oculus.os.vrusb".to_string()));
    s.push(Line::Plain("am start -n com.mapperlocalizer.questtracker/.MainActivity".to_string()));
    proof {
        assert(lines(s@) =~= configure_lines(host@, port, device));
    }
    s
}

/// The script of the one-time setup after which a puck streams on its own after
/// any boot. Appops are written to disk lazily, so it ends with a wait for the
/// flush: a reboot within a few seconds of granting loses the grant.
pub fn provision_autostart() -> (r: Vec<Line>)
    ensures
        lines(r@) == seq![
            LineView::Plain(
                "appops set com.mapperlocalizer.questtracker SYSTEM_ALERT_WINDOW allow"@,
            ),
            LineView::Plain("setprop persist.oculus.guardian_disable 1"@),
            LineView::Plain("setprop persist.oculus.forceHeadsetOn 1"@),
            LineView::Plain("setprop persist.ovr.disable.sensorproxy true"@),
            LineView::Plain("settings put system screen_off_timeout 86400000"@),
            LineView::Plain("settings put global wifi_sleep_policy 2"@),
            LineView::Sleep(45_000),
        ],
{
    let mut s: Vec<Line> = Vec::new();
    s.push(
        Line::Plain(
            "appops set com.mapperlocalizer.questtracker SYSTEM_ALERT_WINDOW allow".to_string(),
        ),
    );
    s.push(Line::Plain("setprop persist.oculus.guardian_disable 1".to_string()));
    s.push(Line::Plain("setprop persist.oculus.forceHeadsetOn 1".to_string()));
    s.push(Line::Plain("setprop persist.ovr.disable.sensorproxy true".to_string()));
    s.push(Line::Plain("settings put system screen_off_timeout 86400000".to_string()));
    s.push(Line::Plain("settings put global wifi_sleep_policy 2".to_string()));
    s.push(Line::Sleep(45_000));
    proof {
        assert(lines(s@) =~= seq![
            LineView::Plain(
                "appops set com.mapperlocalizer.questtracker SYSTEM_ALERT_WINDOW allow"@,
            ),
            LineView::Plain("setprop persist.oculus.guardian_disable 1"@),
            LineView::Plain("setprop persist.oculus.forceHeadsetOn 1"@),
            LineView::Plain("setprop persist.ovr.disable.sensorproxy true"@),
            LineView::Plain("settings put system screen_off_timeout 86400000"@),
            LineView::Plain("settings put global wifi_sleep_policy 2"@),
            LineView::Sleep(45_000),
        ]);
    }
    s
}

/// The three queries that tell whether the setup stuck.
pub fn autostart_queries() -> (r: (&'static str, &'static str, &'static str))
    ensures
        r.0@ == "appops get com.mapperlocalizer.questtracker SYSTEM_ALERT_WINDOW"@,
        r.1@ == "getprop persist.oculus.guardian_disable"@,
        r.2@ == "getprop persist.oculus.forceHeadsetOn"@,
{
    (
        "appops get com.mapperlocalizer.questtracker SYSTEM_ALERT_WINDOW",
        "getprop persist.oculus.guardian_disable",
        "getprop persist.oculus.forceHeadsetOn",
    )
}

/// Whether the setup stuck, by the replies to [`autostart_queries`].
pub fn autostart_stuck(appop: &str, guardian: &str, headset: &str) -> (r: bool)
    ensures
        r == (text::holds(appop@, "allow"@) && text::trimmed(guardian@) == "1"@ && text::trimmed(
            headset@,
        ) == "1"@),
{
    text::contains(appop, "allow") && text::same(text::trim(guardian), "1") && text::same(
        text::trim(headset),
        "1",
    )
}

/// The script that restarts tracking. It does not flush the map: anything mapped
/// since the last automatic write is lost.
pub open spec fn restart_lines() -> Seq<LineView> {
    seq![
        LineView::Checked("stop trackingservice"@, 30),
        LineView::Sleep(3_000),
        LineView::Checked("start trackingservice"@, 30),
    ]
}

/// Restart tracking on a puck.
pub fn restart_trackingservice() -> (r: Vec<Line>)
    ensures
        lines(r@) == restart_lines(),
{
    let mut s: Vec<Line> = Vec::new();
    s.push(Line::Checked("stop trackingservice".to_string(), 30));
    s.push(Line::Sleep(3_000));
    s.push(Line::Checked("start trackingservice".to_string(), 30));
    proof {
        assert(lines(s@) =~= restart_lines());
    }
    s
}

/// The script that enables guardian, in the one order that works: tracking must
/// be restarted after guardian, or guardian never attaches to it.
pub open spec fn guardian_up_lines() -> Seq<LineView> {
    seq![
        LineView::Say("enabling guardian"@),
        LineView::Checked("pm enable com.oculus.guardian"@, 30),
        LineView::Checked(
            "setprop persist.oculus.guardian_json_cmds_user_build 1; setprop persist.oculus.guardian_disable 0"@,
            20,
        ),
        LineView::Say("starting VrGuardianService"@),
        LineView::Checked(
            "am start-foreground-service com.oculus.guardian/com.oculus.vrguardianservice.VrGuardianService"@,
            30,
        ),
        LineView::Sleep(4_000),
        LineView::Say("restarting trackingservice (must follow guardian)"@),
    ] + restart_lines()
}

/// Enable guardian.
pub fn guardian_up() -> (r: Vec<Line>)
    ensures
        lines(r@) == guardian_up_lines(),
{
    let mut s: Vec<Line> = Vec::new();
    s.push(Line::Say("enabling guardian".to_string()));
    s.push(Line::Checked("pm enable com.oculus.guardian".to_string(), 30));
    s.push(
        Line::Checked(
            "setprop persist.oculus.guardian_json_cmds_user_build 1; setprop persist.oculus.guardian_disable 0".to_string(),
            20,
        ),
    );
    s.push(Line::Say("starting VrGuardianService".to_string()));
    s.push(
        Line::Checked(
            "am start-foreground-service com.oculus.guardian/com.oculus.vrguardianservice.VrGuardianService".to_string(),
            30,
        ),
    );
    s.push(Line::Sleep(4_000));
    s.push(Line::Say("restarting trackingservice (must follow guardian)".to_string()));
    s.push(Line::Checked("stop trackingservice".to_string(), 30));
    s.push(Line::Sleep(3_000));
    s.push(Line::Checked("start trackingservice".to_string(), 30));
    proof {
        assert(lines(s@) =~= guardian_up_lines());
    }
    s
}

/// The script that disables guardian again, the package and not merely the
/// property: with the package enabled the tracker emits nothing while looking
/// perfectly healthy.
pub open spec fn guardian_down_lines() -> Seq<LineView> {
    seq![
        LineView::Say("disabling guardian"@),
        LineView::Checked("setprop persist.oculus.guardian_disable 1"@, 20),
        LineView::Checked("am force-stop com.oculus.guardian"@, 30),
        LineView::Checked("pm disable-user --user 0 com.oculus.guardian"@, 30),
    ]
}

/// Disable guardian.
pub fn guardian_down() -> (r: Vec<Line>)
    ensures
        lines(r@) == guardian_down_lines(),
{
    let mut s: Vec<Line> = Vec::new();
    s.push(Line::Say("disabling guardian".to_string()));
    s.push(Line::Checked("setprop persist.oculus.guardian_disable 1".to_string(), 20));
    s.push(Line::Checked("am force-stop com.oculus.guardian".to_string(), 30));
    s.push(Line::Checked("pm disable-user --user 0 com.oculus.guardian".to_string(), 30));
    proof {
        assert(lines(s@) =~= guardian_down_lines());
    }
    s
}

} // verus!
