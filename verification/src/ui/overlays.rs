//! The text of the full-panel overlays: connecting, and dead session.
use vstd::prelude::*;

use crate::models::SshConnection;
use crate::text::{byte_prefix, byte_prefix_exec, chars_of, has_byte_prefix, push_all, push_str, string_from_chars, utf8_len};

verus! {

/// What the dead-session overlay asks for.
pub enum DeadAction {
    Retry,
    Close,
}

/// The dead-session overlay's title: a session that died within eight
/// seconds failed to connect; an older one ended.
pub fn dead_title(age_secs: u64) -> (r: &'static str)
    ensures
        r@ == (if age_secs < 8 {
            "CONNECTION FAILED"@
        } else {
            "SESSION ENDED"@
        }),
{
    if age_secs < 8 {
        "CONNECTION FAILED"
    } else {
        "SESSION ENDED"
    }
}

/// Whether the dead-session overlay points to the error in the scrollback:
/// only for a failed connection.
pub fn shows_scroll_hint(age_secs: u64) -> (r: bool)
    ensures
        r == (age_secs < 8),
{
    age_secs < 8
}

/// The connection line of the overlays: name and subtitle, or `local shell`.
pub fn overlay_subtitle(conn: Option<&SshConnection>) -> (r: String)
    ensures
        r@ == match conn {
            Some(c) => c.name@ + "  ·  "@ + c.subtitle_of(),
            None => "local shell"@,
        },
{
    match conn {
        Some(c) => {
            let mut v = chars_of(c.name.as_str());
            push_str(&mut v, "  ·  ");
            let s = c.subtitle();
            push_str(&mut v, s.as_str());
            string_from_chars(&v)
        },
        None => "local shell".to_owned(),
    }
}

/// Whether the connecting overlay can shorten `cmd`: commands longer than 60
/// bytes are cut at byte 60, which must end a character.
pub open spec fn command_display_ok(cmd: Seq<char>) -> bool {
    utf8_len(cmd) > 60 ==> has_byte_prefix(cmd, 60)
}

/// The command line of the connecting overlay: `$ ` and the command, cut to
/// its first 60 bytes and an ellipsis where it is longer.
pub open spec fn command_display_of(cmd: Seq<char>) -> Seq<char> {
    "$ "@ + (if utf8_len(cmd) > 60 {
        byte_prefix(cmd, 60) + "…"@
    } else {
        cmd
    })
}

/// Whether the connecting overlay can shorten `cmd`.
pub fn command_display_fits(cmd: &str) -> (r: bool)
    ensures
        r == command_display_ok(cmd@),
{
    let c = chars_of(cmd);
    !crate::text::utf8_len_exceeds(&c, 60) || byte_prefix_exec(&c, 60).is_some()
}

/// The command line of the connecting overlay.
pub fn command_display(cmd: &str) -> (r: String)
    requires
        command_display_ok(cmd@),
    ensures
        r@ == command_display_of(cmd@),
{
    let c = chars_of(cmd);
    let mut v = chars_of("$ ");
    if crate::text::utf8_len_exceeds(&c, 60) {
        match byte_prefix_exec(&c, 60) {
            Some(p) => {
                push_all(&mut v, &p);
                push_str(&mut v, "…");
                assert(v@ =~= command_display_of(cmd@));
            },
            None => {
                assert(false);
            },
        }
    } else {
        push_all(&mut v, &c);
        assert(v@ =~= command_display_of(cmd@));
    }
    string_from_chars(&v)
}

} // verus!
