//! What the desktop side tells the interface about the server and about
//! received dumps, and how the interface shows it.

use vstd::prelude::*;
use crate::config::{SettingValue, SettingValueView};
use crate::text::{chars_of, decimal, push_decimal, push_str, str_eq, string_of};

verus! {

/// The server is listening (or failed to).
#[derive(Debug, Clone, PartialEq, Eq, Default)]
pub struct ConnectionEstablishedEvent {
    pub host: String,
    pub port: u16,
    pub success: bool,
}

/// The event sent once the server listens on `127.0.0.1` at `port`.
pub fn connection_event(port: u16) -> (e: ConnectionEstablishedEvent)
    ensures
        e.host@ == "127.0.0.1"@,
        e.port == port,
        e.success,
{
    let h = chars_of("127.0.0.1");
    ConnectionEstablishedEvent { host: string_of(h.as_slice()), port, success: true }
}

/// The host and port the interface stores from an event: only a successful
/// connection is stored, with the port in decimal.
pub fn connection_address(e: &ConnectionEstablishedEvent) -> (r: Option<(String, String)>)
    ensures
        match r {
            Some((h, p)) => e.success && h@ == e.host@ && p@ == decimal(e.port as nat),
            None => !e.success,
        },
{
    if e.success {
        let h = chars_of(e.host.as_str());
        let mut p: Vec<char> = Vec::new();
        push_decimal(&mut p, e.port as u64);
        Some((string_of(h.as_slice()), string_of(p.as_slice())))
    } else {
        None
    }
}

/// The address shown in the sidebar: a waiting notice until a host and a
/// non-zero port are known, then `http://<host>:<port>`.
pub open spec fn spec_address_label(host: Seq<char>, port: Seq<char>) -> Seq<char> {
    if host.len() == 0 || port.len() == 0 || port == "0"@ {
        "Waiting for Quo server..."@
    } else {
        "http://"@ + host + ":"@ + port
    }
}

/// The address shown in the sidebar (see [`spec_address_label`]).
pub fn address_label(host: &str, port: &str) -> (r: String)
    ensures
        r@ == spec_address_label(host@, port@),
{
    let mut out: Vec<char> = Vec::new();
    if host.is_empty() || port.is_empty() || str_eq(port, "0") {
        push_str(&mut out, "Waiting for Quo server...");
    } else {
        push_str(&mut out, "http://");
        push_str(&mut out, host);
        push_str(&mut out, ":");
        push_str(&mut out, port);
    }
    string_of(out.as_slice())
}

/// The text copied by the sidebar's address button: `<host>:<port>`.
pub fn copied_address(host: &str, port: &str) -> (r: String)
    ensures
        r@ == host@ + ":"@ + port@,
{
    let mut out: Vec<char> = Vec::new();
    push_str(&mut out, host);
    push_str(&mut out, ":");
    push_str(&mut out, port);
    string_of(out.as_slice())
}

/// The notification shown for a received dump.
pub fn notification_body(origin: &str) -> (r: String)
    ensures
        r@ == "Received a new payload from "@ + origin@,
{
    let mut out: Vec<char> = Vec::new();
    push_str(&mut out, "Received a new payload from ");
    push_str(&mut out, origin);
    string_of(out.as_slice())
}

/// Notifications are shown only when the stored `notifications` setting is
/// the boolean `true`.
pub fn notifications_enabled(stored: &Option<SettingValue>) -> (r: bool)
    ensures
        r == (stored matches Some(v) && v@ == SettingValueView::Bool(true)),
{
    match stored {
        Some(SettingValue::Bool(b)) => *b,
        _ => false,
    }
}

/// What pressing the sidebar's clear button does: with dumps present they
/// are cleared and the button reads `Clearing...` (and is disabled for a
/// while); otherwise it reads `Nothing to delete`.
pub fn clear_button_outcome(has_payloads: bool) -> (r: (bool, &'static str))
    ensures
        r.0 == has_payloads,
        r.1@ == if has_payloads {
            "Clearing..."@
        } else {
            "Nothing to delete"@
        },
{
    if has_payloads {
        (true, "Clearing...")
    } else {
        (false, "Nothing to delete")
    }
}

} // verus!
