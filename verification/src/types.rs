//! What the parsers hand back, and the mathematical value of each.

use vstd::prelude::*;

verus! {

/// The text of an optional string.
pub open spec fn opt_text(o: Option<String>) -> Option<Seq<char>> {
    match o {
        Some(s) => Some(s@),
        None => None,
    }
}

/// Whether the VPN is connected, and where to.
#[derive(Clone, Debug, PartialEq, Eq)]
pub struct VpnStatus {
    pub connected: bool,
    pub location: Option<String>,
    pub ip: Option<String>,
}

/// The value of a [`VpnStatus`].
pub struct VpnStatusView {
    pub connected: bool,
    pub location: Option<Seq<char>>,
    pub ip: Option<Seq<char>>,
}

impl View for VpnStatus {
    type V = VpnStatusView;

    open spec fn view(&self) -> VpnStatusView {
        VpnStatusView {
            connected: self.connected,
            location: opt_text(self.location),
            ip: opt_text(self.ip),
        }
    }
}

/// One entry of the location list.
#[derive(Clone, Debug, PartialEq, Eq)]
pub struct Location {
    pub iso: String,
    pub country: String,
    pub city: String,
    pub ping: Option<u32>,
}

/// The value of a [`Location`].
pub struct LocationView {
    pub iso: Seq<char>,
    pub country: Seq<char>,
    pub city: Seq<char>,
    pub ping: Option<u32>,
}

impl View for Location {
    type V = LocationView;

    open spec fn view(&self) -> LocationView {
        LocationView { iso: self.iso@, country: self.country@, city: self.city@, ping: self.ping }
    }
}

/// The account's licence.
#[derive(Clone, Debug, PartialEq, Eq)]
pub struct LicenseInfo {
    pub logged_in: bool,
    pub email: Option<String>,
    pub plan: Option<String>,
    pub devices: Option<String>,
    pub valid_until: Option<String>,
}

/// The value of a [`LicenseInfo`].
pub struct LicenseInfoView {
    pub logged_in: bool,
    pub email: Option<Seq<char>>,
    pub plan: Option<Seq<char>>,
    pub devices: Option<Seq<char>>,
    pub valid_until: Option<Seq<char>>,
}

impl View for LicenseInfo {
    type V = LicenseInfoView;

    open spec fn view(&self) -> LicenseInfoView {
        LicenseInfoView {
            logged_in: self.logged_in,
            email: opt_text(self.email),
            plan: opt_text(self.plan),
            devices: opt_text(self.devices),
            valid_until: opt_text(self.valid_until),
        }
    }
}

/// The client's settings.
#[derive(Clone, Debug, PartialEq, Eq)]
pub struct ConfigInfo {
    pub mode: String,
    pub dns: String,
    pub protocol: String,
    pub tunnel_routing_mode: String,
    pub update_channel: String,
    pub change_system_dns: bool,
    pub post_quantum: bool,
    pub crash_reporting: bool,
    pub telemetry: bool,
    pub debug_logging: bool,
    pub show_notifications: bool,
}

/// The value of a [`ConfigInfo`].
pub struct ConfigInfoView {
    pub mode: Seq<char>,
    pub dns: Seq<char>,
    pub protocol: Seq<char>,
    pub tunnel_routing_mode: Seq<char>,
    pub update_channel: Seq<char>,
    pub change_system_dns: bool,
    pub post_quantum: bool,
    pub crash_reporting: bool,
    pub telemetry: bool,
    pub debug_logging: bool,
    pub show_notifications: bool,
}

impl View for ConfigInfo {
    type V = ConfigInfoView;

    open spec fn view(&self) -> ConfigInfoView {
        ConfigInfoView {
            mode: self.mode@,
            dns: self.dns@,
            protocol: self.protocol@,
            tunnel_routing_mode: self.tunnel_routing_mode@,
            update_channel: self.update_channel@,
            change_system_dns: self.change_system_dns,
            post_quantum: self.post_quantum,
            crash_reporting: self.crash_reporting,
            telemetry: self.telemetry,
            debug_logging: self.debug_logging,
            show_notifications: self.show_notifications,
        }
    }
}

} // verus!
