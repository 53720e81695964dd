//! Local, best-effort notifications of fired alerts: their texts. Showing or
//! logging them is left to the program.
use vstd::prelude::*;
use crate::alert::{kind_label, severity_db, Alert};

verus! {

broadcast use vstd::string::group_string_axioms;

/// Sends an OS notification and logs to stderr.
pub struct OsNotifier;

/// Logs alerts to stderr only.
pub struct LogNotifier;

/// Title of an alert's desktop notification: `pktscope: <kind label>`.
pub fn notification_title(alert: &Alert) -> (r: String)
    ensures
        r@ == "pktscope: "@ + kind_label(alert.kind),
{
    let mut s = String::new();
    s.append("pktscope: ");
    s.append(alert.kind.label());
    s
}

/// The stderr line of an alert: `[ALERT][<severity>] <kind label> — <title>`.
pub fn log_line(alert: &Alert) -> (r: String)
    ensures
        r@ == "[ALERT]["@ + severity_db(alert.severity) + "] "@ + kind_label(alert.kind) + " — "@
            + alert.title@,
{
    let mut s = String::new();
    s.append("[ALERT][");
    s.append(alert.severity.as_db());
    s.append("] ");
    s.append(alert.kind.label());
    s.append(" — ");
    s.append(alert.title.as_str());
    s
}

/// One character escaped for an AppleScript string literal.
pub open spec fn escape_char(c: char) -> Seq<char> {
    if c == '\\' {
        seq!['\\', '\\']
    } else if c == '"' {
        seq!['\\', '"']
    } else {
        seq![c]
    }
}

pub open spec fn escape_all(s: Seq<char>) -> Seq<char>
    decreases s.len(),
{
    if s.len() == 0 {
        seq![]
    } else {
        escape_all(s.drop_last()) + escape_char(s.last())
    }
}

/// `s` as an AppleScript string literal: in double quotes, with backslashes
/// and double quotes escaped by a backslash.
pub fn applescript_quote(s: &str) -> (r: String)
    ensures
        r@ == seq!['"'] + escape_all(s@) + seq!['"'],
{
    let v = crate::text::string_chars(s);
    let mut r = String::new();
    crate::text::push_char(&mut r, '"');
    let mut i: usize = 0;
    while i < v.len()
        invariant
            i <= v@.len(),
            v@ == s@,
            r@ == seq!['"'] + escape_all(v@.take(i as int)),
        decreases v@.len() - i,
    {
        let c = v[i];
        if c == '\\' {
            crate::text::push_char(&mut r, '\\');
            crate::text::push_char(&mut r, '\\');
        } else if c == '"' {
            crate::text::push_char(&mut r, '\\');
            crate::text::push_char(&mut r, '"');
        } else {
            crate::text::push_char(&mut r, c);
        }
        assert(v@.take(i + 1).drop_last() =~= v@.take(i as int));
        i = i + 1;
        assert(r@ =~= seq!['"'] + escape_all(v@.take(i as int)));
    }
    assert(v@.take(i as int) =~= v@);
    crate::text::push_char(&mut r, '"');
    r
}

} // verus!
