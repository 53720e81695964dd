//! Binary identity for the "program modification" alert: a code signature
//! (cdhash, signing id, team id) where `codesign` reports one, else the
//! SHA-256 of the executable's contents; and when a change is worth flagging.
use vstd::prelude::*;
use crate::decode::http::{chars_eq, trim, trim_bounds};
use crate::decode::ja::{sha256_digest, spec_sha256};
use crate::decode::tls::opt_view;
use crate::text::{chars_to_string, hex_bytes, hex_string, spec_utf8_lossy, string_chars, utf8_lossy};

verus! {

broadcast use vstd::string::group_string_axioms;

#[derive(Debug, Clone, PartialEq, Eq)]
pub enum IdentityKind {
    MacCodesign,
    Sha256,
    Unknown,
}

#[derive(Debug, Clone, Copy, PartialEq, Eq)]
pub enum IdentityStatus {
    Valid,
    Unsigned,
    AdHoc,
    Invalid,
    Unreadable,
}

/// The identity of one executable. `path` is the executable's path as text;
/// `value` is the cdhash or the SHA-256 hex, empty when unreadable.
#[derive(Debug, Clone)]
pub struct BinaryIdentity {
    pub path: String,
    pub kind: IdentityKind,
    pub value: String,
    pub signing_id: Option<String>,
    pub team_id: Option<String>,
    pub authority: Option<String>,
    pub status: IdentityStatus,
}

/// Model of a [`BinaryIdentity`].
pub struct IdentityV {
    pub path: Seq<char>,
    pub kind: IdentityKind,
    pub value: Seq<char>,
    pub signing_id: Option<Seq<char>>,
    pub team_id: Option<Seq<char>>,
    pub authority: Option<Seq<char>>,
    pub status: IdentityStatus,
}

impl View for BinaryIdentity {
    type V = IdentityV;

    open spec fn view(&self) -> IdentityV {
        IdentityV {
            path: self.path@,
            kind: self.kind,
            value: self.value@,
            signing_id: opt_view(self.signing_id),
            team_id: opt_view(self.team_id),
            authority: opt_view(self.authority),
            status: self.status,
        }
    }
}

/// Whether `cur` is a meaningful change from the baseline `base`. Unreadable
/// identities never flag. Between two code signatures a changed team or
/// signing id, or a fall from Valid, always flags, and a changed cdhash alone
/// (a normal signed update) flags only when `flag_signed_updates` is set.
/// Otherwise any changed value, or a fall from Valid, flags.
pub open spec fn spec_changed_since(base: IdentityV, cur: IdentityV, flag_signed_updates: bool) -> bool {
    if base.status == IdentityStatus::Unreadable || cur.status == IdentityStatus::Unreadable {
        false
    } else {
        let regressed = base.status == IdentityStatus::Valid && cur.status != IdentityStatus::Valid;
        if base.kind == IdentityKind::MacCodesign && cur.kind == IdentityKind::MacCodesign {
            if base.team_id != cur.team_id || base.signing_id != cur.signing_id {
                true
            } else if regressed {
                true
            } else if base.value != cur.value {
                flag_signed_updates
            } else {
                false
            }
        } else {
            base.value != cur.value || regressed
        }
    }
}

fn opt_string_eq(a: &Option<String>, b: &Option<String>) -> (r: bool)
    ensures
        r == (opt_view(*a) == opt_view(*b)),
{
    match (a, b) {
        (Some(x), Some(y)) => *x == *y,
        (None, None) => true,
        _ => false,
    }
}

fn is_codesign(k: &IdentityKind) -> (r: bool)
    ensures
        r == (*k == IdentityKind::MacCodesign),
{
    match k {
        IdentityKind::MacCodesign => true,
        _ => false,
    }
}

fn is_status(a: IdentityStatus, b: IdentityStatus) -> (r: bool)
    ensures
        r == (a == b),
{
    match (a, b) {
        (IdentityStatus::Valid, IdentityStatus::Valid) => true,
        (IdentityStatus::Unsigned, IdentityStatus::Unsigned) => true,
        (IdentityStatus::AdHoc, IdentityStatus::AdHoc) => true,
        (IdentityStatus::Invalid, IdentityStatus::Invalid) => true,
        (IdentityStatus::Unreadable, IdentityStatus::Unreadable) => true,
        _ => false,
    }
}

impl BinaryIdentity {
    /// True if `current` is a meaningful change from `self` (the baseline).
    pub fn changed_since(&self, current: &BinaryIdentity, flag_signed_updates: bool) -> (r: bool)
        ensures
            r == spec_changed_since(self@, current@, flag_signed_updates),
    {
        if is_status(self.status, IdentityStatus::Unreadable) || is_status(
            current.status,
            IdentityStatus::Unreadable,
        ) {
            return false;
        }
        let regressed = is_status(self.status, IdentityStatus::Valid) && !is_status(
            current.status,
            IdentityStatus::Valid,
        );
        if is_codesign(&self.kind) && is_codesign(&current.kind) {
            if !opt_string_eq(&self.team_id, &current.team_id) || !opt_string_eq(
                &self.signing_id,
                &current.signing_id,
            ) {
                return true;
            }
            if regressed {
                return true;
            }
            if self.value != current.value {
                return flag_signed_updates;
            }
            false
        } else {
            self.value != current.value || regressed
        }
    }
}

/// No identity is a change from itself.
pub proof fn law_identity_unchanged_from_itself(x: IdentityV, flag_signed_updates: bool)
    ensures
        !spec_changed_since(x, x, flag_signed_updates),
{
}

/// Lower-case hex SHA-256 of a file's contents.
pub fn sha256_hex(data: &[u8]) -> (s: String)
    ensures
        s@ == hex_bytes(spec_sha256(data@)),
{
    let d = sha256_digest(data);
    hex_string(d.as_slice())
}

/// The identity of a file that could not be read.
pub fn unreadable(path: String, kind: IdentityKind) -> (r: BinaryIdentity)
    ensures
        r@ == (IdentityV {
            path: path@,
            kind,
            value: seq![],
            signing_id: None,
            team_id: None,
            authority: None,
            status: IdentityStatus::Unreadable,
        }),
{
    BinaryIdentity {
        path,
        kind,
        value: String::new(),
        signing_id: None,
        team_id: None,
        authority: None,
        status: IdentityStatus::Unreadable,
    }
}

/// The content-hash identity of the executable at `path`, from its contents
/// (`None` when the file could not be read).
pub fn sha256_identity(path: String, contents: Option<&[u8]>) -> (r: BinaryIdentity)
    ensures
        match contents {
            Some(d) => r@ == (IdentityV {
                path: path@,
                kind: IdentityKind::Sha256,
                value: hex_bytes(spec_sha256(d@)),
                signing_id: None,
                team_id: None,
                authority: None,
                status: IdentityStatus::Valid,
            }),
            None => r@ == (IdentityV {
                path: path@,
                kind: IdentityKind::Sha256,
                value: seq![],
                signing_id: None,
                team_id: None,
                authority: None,
                status: IdentityStatus::Unreadable,
            }),
        },
{
    match contents {
        Some(d) => BinaryIdentity {
            path,
            kind: IdentityKind::Sha256,
            value: sha256_hex(d),
            signing_id: None,
            team_id: None,
            authority: None,
            status: IdentityStatus::Valid,
        },
        None => unreadable(path, IdentityKind::Sha256),
    }
}


// ---------------------------------------------------------------------------
// Code signatures as `codesign -d --verbose=4` reports them
// ---------------------------------------------------------------------------

/// The fields read from `codesign` output.
#[derive(Debug, Clone)]
pub struct CodesignInfo {
    pub signing_id: Option<String>,
    pub team_id: Option<String>,
    pub authority: Option<String>,
    pub cdhash: Option<String>,
    pub status: IdentityStatus,
}

pub struct CodesignV {
    pub signing_id: Option<Seq<char>>,
    pub team_id: Option<Seq<char>>,
    pub authority: Option<Seq<char>>,
    pub cdhash: Option<Seq<char>>,
    pub status: IdentityStatus,
}

impl View for CodesignInfo {
    type V = CodesignV;

    open spec fn view(&self) -> CodesignV {
        CodesignV {
            signing_id: opt_view(self.signing_id),
            team_id: opt_view(self.team_id),
            authority: opt_view(self.authority),
            cdhash: opt_view(self.cdhash),
            status: self.status,
        }
    }
}

pub open spec fn starts_with(s: Seq<char>, p: Seq<char>) -> bool {
    s.len() >= p.len() && s.take(p.len() as int) == p
}

/// `p` occurs somewhere in `s`.
pub open spec fn has_sub(s: Seq<char>, p: Seq<char>) -> bool {
    exists|i: int| 0 <= i <= s.len() - p.len() && #[trigger] s.subrange(i, i + p.len()) == p
}

pub open spec fn codesign_init(success: bool) -> CodesignV {
    CodesignV {
        signing_id: None,
        team_id: None,
        authority: None,
        cdhash: None,
        status: if success {
            IdentityStatus::Valid
        } else {
            IdentityStatus::Unsigned
        },
    }
}

/// One output line: `Identifier=`, `TeamIdentifier=` (unless `not set`),
/// `CDHash=` and the first `Authority=` give their trimmed values; a line that
/// mentions `adhoc` marks an ad-hoc signature.
pub open spec fn codesign_line(st: CodesignV, line: Seq<char>) -> CodesignV {
    let st1 = if starts_with(line, "Identifier="@) {
        CodesignV { signing_id: Some(trim(line.skip("Identifier="@.len() as int))), ..st }
    } else if starts_with(line, "TeamIdentifier="@) {
        let v = trim(line.skip("TeamIdentifier="@.len() as int));
        if v != "not set"@ {
            CodesignV { team_id: Some(v), ..st }
        } else {
            st
        }
    } else if starts_with(line, "CDHash="@) {
        CodesignV { cdhash: Some(trim(line.skip("CDHash="@.len() as int))), ..st }
    } else if starts_with(line, "Authority="@) {
        if st.authority is None {
            CodesignV { authority: Some(trim(line.skip("Authority="@.len() as int))), ..st }
        } else {
            st
        }
    } else {
        st
    };
    if has_sub(line, "adhoc"@) {
        CodesignV { status: IdentityStatus::AdHoc, ..st1 }
    } else {
        st1
    }
}

/// First `\n` at or after `i`.
pub open spec fn find_nl(t: Seq<char>, i: int) -> Option<int>
    decreases t.len() - i,
{
    if i < 0 || i >= t.len() {
        None
    } else if t[i] == '\n' {
        Some(i)
    } else {
        find_nl(t, i + 1)
    }
}

pub proof fn lemma_find_nl(t: Seq<char>, i: int)
    requires
        0 <= i,
    ensures
        find_nl(t, i) matches Some(e) ==> i <= e < t.len(),
    decreases t.len() - i,
{
    if i < t.len() && t[i] != '\n' {
        lemma_find_nl(t, i + 1);
    }
}

/// The lines of `t` from `p` on (as `str::lines` splits them: at `\n`, with the
/// `\r` of a `\r\n` ending dropped), folded into `st`.
pub open spec fn codesign_from(t: Seq<char>, p: int, st: CodesignV) -> CodesignV
    decreases t.len() - p,
{
    if p < 0 || p >= t.len() {
        st
    } else {
        let e = match find_nl(t, p) {
            Some(e) => e,
            None => t.len() as int,
        };
        let raw = t.subrange(p, e);
        let line = if find_nl(t, p) is Some && raw.len() > 0 && raw.last() == '\r' {
            raw.drop_last()
        } else {
            raw
        };
        let st2 = codesign_line(st, line);
        proof {
            lemma_find_nl(t, p);
        }
        match find_nl(t, p) {
            Some(e2) => codesign_from(t, e2 + 1, st2),
            None => st2,
        }
    }
}

pub open spec fn spec_parse_codesign(stderr: Seq<u8>, stdout: Seq<u8>, success: bool) -> CodesignV {
    codesign_from(spec_utf8_lossy(stderr) + spec_utf8_lossy(stdout), 0, codesign_init(success))
}

fn starts_with_exec(s: &[char], p: &[char]) -> (r: bool)
    ensures
        r == starts_with(s@, p@),
{
    if s.len() < p.len() {
        return false;
    }
    let head = &s[0..p.len()];
    assert(head@ =~= s@.take(p@.len() as int));
    chars_eq(head, p)
}

pub(crate) fn contains_exec(s: &[char], p: &[char]) -> (r: bool)
    ensures
        r == has_sub(s@, p@),
{
    let sn = s.len();
    let pn = p.len();
    if sn < pn {
        return false;
    }
    if pn == 0 {
        assert(s@.subrange(0int, 0int + p@.len()) =~= p@);
        return true;
    }
    let mut i: usize = 0;
    let last = sn - pn;
    while i <= last
        invariant
            sn == s@.len(),
            pn == p@.len(),
            last == sn - pn,
            last < sn,
            i <= last + 1,
            forall|k: int| 0 <= k < i ==> #[trigger] s@.subrange(k, k + p@.len()) != p@,
        decreases last + 1 - i,
    {
        let w = &s[i..i + pn];
        assert(w@ =~= s@.subrange(i as int, i + p@.len()));
        if chars_eq(w, p) {
            return true;
        }
        i = i + 1;
    }
    false
}

fn trimmed_after(line: &[char], n: usize) -> (r: String)
    requires
        n <= line@.len(),
    ensures
        r@ == trim(line@.skip(n as int)),
{
    let rest = &line[n..line.len()];
    assert(rest@ =~= line@.skip(n as int));
    let (a, b) = trim_bounds(rest);
    let t = &rest[a..b];
    assert(t@ =~= trim(rest@));
    chars_to_string(t)
}

fn codesign_line_exec(st: &mut CodesignInfo, line: &[char])
    ensures
        final(st)@ == codesign_line(old(st)@, line@),
{
    let ident = string_chars("Identifier=");
    let team = string_chars("TeamIdentifier=");
    let cdh = string_chars("CDHash=");
    let auth = string_chars("Authority=");
    let notset = string_chars("not set");
    let adhoc = string_chars("adhoc");
    if starts_with_exec(line, ident.as_slice()) {
        st.signing_id = Some(trimmed_after(line, ident.len()));
    } else if starts_with_exec(line, team.as_slice()) {
        let v = trimmed_after(line, team.len());
        let vc = string_chars(v.as_str());
        if !chars_eq(vc.as_slice(), notset.as_slice()) {
            st.team_id = Some(v);
        }
    } else if starts_with_exec(line, cdh.as_slice()) {
        st.cdhash = Some(trimmed_after(line, cdh.len()));
    } else if starts_with_exec(line, auth.as_slice()) {
        if st.authority.is_none() {
            st.authority = Some(trimmed_after(line, auth.len()));
        }
    }
    if contains_exec(line, adhoc.as_slice()) {
        st.status = IdentityStatus::AdHoc;
    }
}

/// Reads the signature fields from `codesign`'s standard error and standard
/// output (each decoded as UTF-8 with replacement), one line at a time. The
/// status starts as Valid when `codesign` succeeded, else Unsigned.
pub fn parse_codesign_output(stderr: &[u8], stdout: &[u8], success: bool) -> (r: CodesignInfo)
    ensures
        r@ == spec_parse_codesign(stderr@, stdout@, success),
{
    let mut text = utf8_lossy(stderr);
    let out = utf8_lossy(stdout);
    text.append(out.as_str());
    let tv = string_chars(text.as_str());
    let t: &[char] = tv.as_slice();
    let mut st = CodesignInfo {
        signing_id: None,
        team_id: None,
        authority: None,
        cdhash: None,
        status: if success {
            IdentityStatus::Valid
        } else {
            IdentityStatus::Unsigned
        },
    };
    let ghost target = codesign_from(t@, 0, st@);
    let mut p: usize = 0;
    let n = t.len();
    while p < n
        invariant_except_break
            n == t@.len(),
            p <= n,
            target == codesign_from(t@, p as int, st@),
        ensures
            target == st@,
        decreases n - p,
    {
        let mut e: usize = p;
        while e < n && t[e] != '\n'
            invariant
                n == t@.len(),
                p <= e <= n,
                find_nl(t@, p as int) == find_nl(t@, e as int),
            decreases n - e,
        {
            e = e + 1;
        }
        let raw = &t[p..e];
        assert(raw@ =~= t@.subrange(p as int, e as int));
        let line = if e < n && raw.len() > 0 && raw[raw.len() - 1] == '\r' {
            let l = &raw[0..raw.len() - 1];
            assert(l@ =~= raw@.drop_last());
            l
        } else {
            raw
        };
        codesign_line_exec(&mut st, line);
        if e == n {
            break ;
        }
        p = e + 1;
    }
    st
}

/// The code-signature identity of the executable at `path`: its value is the
/// cdhash when `codesign` gave one, else the file's content hash when that
/// could be computed, else empty.
pub fn codesign_identity(path: String, info: CodesignInfo, file_hash: Option<String>) -> (r: BinaryIdentity)
    ensures
        r@ == (IdentityV {
            path: path@,
            kind: IdentityKind::MacCodesign,
            value: match info@.cdhash {
                Some(c) => c,
                None => match file_hash {
                    Some(h) => h@,
                    None => seq![],
                },
            },
            signing_id: info@.signing_id,
            team_id: info@.team_id,
            authority: info@.authority,
            status: info@.status,
        }),
{
    let value = match info.cdhash {
        Some(c) => c,
        None => match file_hash {
            Some(h) => h,
            None => String::new(),
        },
    };
    BinaryIdentity {
        path,
        kind: IdentityKind::MacCodesign,
        value,
        signing_id: info.signing_id,
        team_id: info.team_id,
        authority: info.authority,
        status: info.status,
    }
}

} // verus!
