//! Admin authentication: the session token derived from the admin password,
//! the `admin_session` cookie that carries it, and whether a request is
//! authenticated.

use vstd::prelude::*;

use vstd::string::StringSliceAdditionalSpecFns;

use crate::text::{chars_of, is_prefix, push_char, push_str, str_eq, string_from_chars, string_of};

verus! {

/// Whether auth is enabled and whether the current request is authenticated.
#[derive(Debug, Clone, Copy, PartialEq, Eq, Structural)]
pub struct AuthStatus {
    pub enabled: bool,
    pub logged_in: bool,
}

// ── Cookies ───────────────────────────────────────────────────────────────────

/// The pieces of `s` between the occurrences of the non-empty `sep`, taken
/// from left to right without overlap (`str::split`).
pub open spec fn split_spec(s: Seq<char>, sep: Seq<char>) -> Seq<Seq<char>>
    decreases s.len(),
{
    if sep.len() == 0 || s.len() < sep.len() {
        seq![s]
    } else if s.take(sep.len() as int) == sep {
        seq![Seq::empty()] + split_spec(s.skip(sep.len() as int), sep)
    } else {
        let r = split_spec(s.skip(1), sep);
        seq![seq![s[0]] + r[0]] + r.skip(1)
    }
}

/// `cur` put in front of the first piece of `r`.
pub open spec fn glue(cur: Seq<char>, r: Seq<Seq<char>>) -> Seq<Seq<char>> {
    seq![cur + r[0]] + r.skip(1)
}

proof fn lemma_split_nonempty(s: Seq<char>, sep: Seq<char>)
    ensures
        split_spec(s, sep).len() >= 1,
    decreases s.len(),
{
    if !(sep.len() == 0 || s.len() < sep.len()) {
        if s.take(sep.len() as int) == sep {
            lemma_split_nonempty(s.skip(sep.len() as int), sep);
        } else {
            lemma_split_nonempty(s.skip(1), sep);
        }
    }
}

/// The value of cookie `name` in a `Cookie` header: the rest of the first
/// `; `-separated piece that starts with `name=`.
pub open spec fn cookie_value(header: Seq<char>, name: Seq<char>) -> Option<Seq<char>> {
    match crate::find::first_where(
        split_spec(header, "; "@).len() as int,
        |i: int| is_prefix(name.push('='), split_spec(header, "; "@)[i]),
    ) {
        Some(i) => Some(split_spec(header, "; "@)[i].skip(name.len() as int + 1)),
        None => None,
    }
}

proof fn lemma_split_step(s: Seq<char>, i: int, sep: Seq<char>)
    requires
        sep == "; "@,
        sep.len() == 2 && sep[0] == ';' && sep[1] == ' ',
        0 <= i < s.len(),
    ensures
        (i + 1 < s.len() && s[i] == ';' && s[i + 1] == ' ') ==> split_spec(s.skip(i), sep) == seq![
            Seq::<char>::empty(),
        ] + split_spec(s.skip(i + 2), sep),
        !(i + 1 < s.len() && s[i] == ';' && s[i + 1] == ' ') ==> split_spec(s.skip(i), sep) == glue(
            seq![s[i]],
            split_spec(s.skip(i + 1), sep),
        ),
{
    let rest = s.skip(i);
    assert(rest.skip(1) =~= s.skip(i + 1));
    if i + 1 == s.len() {
        assert(rest =~= seq![s[i]]);
        assert(s.skip(i + 1) =~= Seq::<char>::empty());
        assert(glue(seq![s[i]], seq![Seq::<char>::empty()]) =~= seq![seq![s[i]]]);
    }
    if i + 1 < s.len() {
        assert(rest.skip(2) =~= s.skip(i + 2));
        if s[i] == ';' && s[i + 1] == ' ' {
            assert(rest.take(2) =~= sep);
        } else {
            assert(rest.take(2) != sep) by {
                if rest.take(2) == sep {
                    assert(rest.take(2)[0] == s[i]);
                    assert(rest.take(2)[1] == s[i + 1]);
                }
            }
        }
    }
}

proof fn lemma_glue_push(cur: Seq<char>, x: char, r: Seq<Seq<char>>)
    requires
        r.len() >= 1,
    ensures
        glue(cur, glue(seq![x], r)) == glue(cur.push(x), r),
{
    let g = glue(seq![x], r);
    assert(g[0] == seq![x] + r[0]);
    assert(g.skip(1) =~= r.skip(1));
    assert(cur + (seq![x] + r[0]) =~= cur.push(x) + r[0]);
    assert(glue(cur, g) =~= glue(cur.push(x), r));
}

/// Splits the character sequence `s` at every `; `.
fn split_cookie_header(s: &Vec<char>) -> (r: Vec<Vec<char>>)
    ensures
        r@.map_values(|p: Vec<char>| p@) == split_spec(s@, "; "@),
{
    proof {
        reveal_strlit("; ");
    }
    let ghost sep = "; "@;
    let mut pieces: Vec<Vec<char>> = Vec::new();
    let mut current: Vec<char> = Vec::new();
    let mut i: usize = 0;
    assert(s@.skip(0) =~= s@);
    proof {
        lemma_split_nonempty(s@, sep);
        assert(glue(current@, split_spec(s@, sep)) =~= split_spec(s@, sep));
    }
    while i < s.len()
        invariant
            sep == "; "@,
            sep.len() == 2 && sep[0] == ';' && sep[1] == ' ',
            0 <= i <= s@.len(),
            pieces@.map_values(|p: Vec<char>| p@) + glue(current@, split_spec(s@.skip(i as int), sep))
                == split_spec(s@, sep),
        decreases s@.len() - i,
    {
        let ghost before = pieces@.map_values(|p: Vec<char>| p@);
        let ghost cur = current@;
        proof {
            lemma_split_step(s@, i as int, sep);
        }
        if s[i] == ';' && i + 1 < s.len() && s[i + 1] == ' ' {
            proof {
                lemma_split_nonempty(s@.skip(i + 2), sep);
                let r = split_spec(s@.skip(i + 2), sep);
                assert(glue(cur, seq![Seq::<char>::empty()] + r) =~= seq![cur] + r);
                assert(glue(Seq::<char>::empty(), r) =~= r);
            }
            pieces.push(current);
            assert(pieces@.map_values(|p: Vec<char>| p@) =~= before.push(cur));
            assert(before + glue(cur, split_spec(s@.skip(i as int), sep)) =~= pieces@.map_values(
                |p: Vec<char>| p@,
            ) + glue(Seq::<char>::empty(), split_spec(s@.skip(i + 2), sep)));
            current = Vec::new();
            i = i + 2;
        } else {
            proof {
                lemma_split_nonempty(s@.skip(i + 1), sep);
                lemma_glue_push(cur, s@[i as int], split_spec(s@.skip(i + 1), sep));
            }
            current.push(s[i]);
            i = i + 1;
        }
    }
    proof {
        assert(s@.skip(s@.len() as int) =~= Seq::<char>::empty());
        assert(glue(current@, seq![Seq::<char>::empty()]) =~= seq![current@]);
    }
    let ghost before = pieces@.map_values(|p: Vec<char>| p@);
    pieces.push(current);
    assert(pieces@.map_values(|p: Vec<char>| p@) =~= before.push(current@));
    pieces
}

/// Whether `prefix` is a prefix of `piece`.
fn chars_start_with(piece: &Vec<char>, prefix: &Vec<char>) -> (r: bool)
    ensures
        r == is_prefix(prefix@, piece@),
{
    if piece.len() < prefix.len() {
        return false;
    }
    let mut k: usize = 0;
    while k < prefix.len()
        invariant
            piece@.len() >= prefix@.len(),
            0 <= k <= prefix@.len(),
            forall|m: int| 0 <= m < k ==> piece@[m] == prefix@[m],
        decreases prefix@.len() - k,
    {
        if piece[k] != prefix[k] {
            assert(piece@.subrange(0, prefix@.len() as int)[k as int] != prefix@[k as int]);
            return false;
        }
        k = k + 1;
    }
    assert(piece@.subrange(0, prefix@.len() as int) =~= prefix@);
    true
}

/// The characters of `v` from position `from` on.
fn chars_from(v: &Vec<char>, from: usize) -> (r: Vec<char>)
    requires
        from <= v@.len(),
    ensures
        r@ == v@.skip(from as int),
{
    let mut out: Vec<char> = Vec::new();
    let mut m: usize = from;
    while m < v.len()
        invariant
            from <= m <= v@.len(),
            out@ == v@.subrange(from as int, m as int),
        decreases v@.len() - m,
    {
        out.push(v[m]);
        assert(v@.subrange(from as int, m + 1) =~= v@.subrange(from as int, m as int).push(v@[m as int]));
        m = m + 1;
    }
    assert(out@ =~= v@.skip(from as int));
    out
}

/// The value of cookie `name` in the `Cookie` header `cookie_header`
/// (`None` without the header or the cookie).
#[verifier::rlimit(40)]
pub fn get_cookie(cookie_header: Option<&str>, name: &str) -> (r: Option<String>)
    ensures
        match cookie_header {
            None => r is None,
            Some(h) => match cookie_value(h@, name@) {
                Some(v) => r matches Some(x) && x@ == v,
                None => r is None,
            },
        },
{
    let header = match cookie_header {
        Some(h) => h,
        None => return None,
    };
    let cs = chars_of(header);
    let pieces = split_cookie_header(&cs);
    let ghost views = pieces@.map_values(|p: Vec<char>| p@);
    let mut prefix = chars_of(name);
    prefix.push('=');
    let ghost pred = |i: int| is_prefix(prefix@, views[i]);
    let mut i: usize = 0;
    while i < pieces.len()
        invariant
            cookie_header == Some(header),
            views == pieces@.map_values(|p: Vec<char>| p@),
            views == split_spec(header@, "; "@),
            prefix@ == name@.push('='),
            pred == (|i: int| is_prefix(prefix@, views[i])),
            0 <= i <= pieces@.len(),
            forall|j: int| 0 <= j < i ==> !#[trigger] pred(j),
        decreases pieces@.len() - i,
    {
        assert(views[i as int] == pieces@[i as int]@);
        if chars_start_with(&pieces[i], &prefix) {
            proof {
                crate::find::lemma_first_where_found(views.len() as int, pred, i as int);
                crate::find::lemma_first_where_congruent(
                    views.len() as int,
                    pred,
                    |i: int| is_prefix(name@.push('='), split_spec(header@, "; "@)[i]),
                );
            }
            let value = chars_from(&pieces[i], prefix.len());
            return Some(string_from_chars(&value));
        }
        i = i + 1;
    }
    proof {
        crate::find::lemma_first_where_range(views.len() as int, pred);
        crate::find::lemma_first_where_congruent(
            views.len() as int,
            pred,
            |i: int| is_prefix(name@.push('='), split_spec(header@, "; "@)[i]),
        );
    }
    None
}

/// Auth is enabled exactly when a session token is configured; the request
/// is then logged in when its `admin_session` cookie carries that token.
pub open spec fn auth_status_spec(session_token: Option<Seq<char>>, cookie_header: Option<Seq<char>>) -> AuthStatus {
    match session_token {
        None => AuthStatus { enabled: false, logged_in: false },
        Some(t) => AuthStatus {
            enabled: true,
            logged_in: match cookie_header {
                Some(h) => cookie_value(h, "admin_session"@) == Some(t),
                None => false,
            },
        },
    }
}

/// The auth status of a request from the configured session token and the
/// request's `Cookie` header.
pub fn auth_status(session_token: Option<&str>, cookie_header: Option<&str>) -> (r: AuthStatus)
    ensures
        r == auth_status_spec(
            match session_token {
                Some(t) => Some(t@),
                None => None,
            },
            match cookie_header {
                Some(h) => Some(h@),
                None => None,
            },
        ),
{
    let token = match session_token {
        None => return AuthStatus { enabled: false, logged_in: false },
        Some(t) => t,
    };
    let logged_in = match get_cookie(cookie_header, "admin_session") {
        Some(v) => str_eq(v.as_str(), token),
        None => false,
    };
    AuthStatus { enabled: true, logged_in }
}

// ── Login ─────────────────────────────────────────────────────────────────────

/// The `Set-Cookie` value of a successful login.
pub open spec fn login_cookie_spec(token: Seq<char>) -> Seq<char> {
    "admin_session="@ + token + "; HttpOnly; Path=/; SameSite=Lax"@
}

/// The cookie a login sets: only when auth is configured (a token and a
/// password) and the submitted password is the admin password.
pub fn login_cookie(session_token: Option<&str>, admin_password: Option<&str>, password: &str) -> (r:
    Option<String>)
    ensures
        match (session_token, admin_password) {
            (Some(t), Some(p)) => if password@ == p@ {
                r matches Some(c) && c@ == login_cookie_spec(t@)
            } else {
                r is None
            },
            _ => r is None,
        },
{
    match (session_token, admin_password) {
        (Some(t), Some(p)) => {
            if str_eq(password, p) {
                let mut c = string_of("admin_session=");
                push_str(&mut c, t);
                push_str(&mut c, "; HttpOnly; Path=/; SameSite=Lax");
                Some(c)
            } else {
                None
            }
        },
        _ => None,
    }
}

// ── Session token ─────────────────────────────────────────────────────────────

/// The base64 alphabet.
pub open spec fn b64_alphabet() -> Seq<char> {
    "ABCDEFGHIJKLMNOPQRSTUVWXYZabcdefghijklmnopqrstuvwxyz0123456789+/"@
}

/// Standard base64 (with `=` padding) of `bytes`: each group of three bytes
/// becomes four characters of six bits each.
pub open spec fn base64_spec(bytes: Seq<u8>) -> Seq<char>
    decreases bytes.len(),
{
    if bytes.len() == 0 {
        Seq::empty()
    } else {
        let n = bytes.len();
        let b0 = bytes[0] as int;
        let b1 = if n > 1 {
            bytes[1] as int
        } else {
            0
        };
        let b2 = if n > 2 {
            bytes[2] as int
        } else {
            0
        };
        let a = b64_alphabet();
        seq![
            a[b0 / 4],
            a[(b0 % 4) * 16 + b1 / 16],
            if n > 1 {
                a[(b1 % 16) * 4 + b2 / 64]
            } else {
                '='
            },
            if n > 2 {
                a[b2 % 64]
            } else {
                '='
            },
        ] + base64_spec(bytes.skip(if n > 3 { 3 } else { n as int }))
    }
}

/// Minimal base64 encoder — used to derive the session token from the admin
/// password.
pub fn base64_encode(input: &[u8]) -> (r: String)
    ensures
        r@ == base64_spec(input@),
{
    let alphabet = chars_of("ABCDEFGHIJKLMNOPQRSTUVWXYZabcdefghijklmnopqrstuvwxyz0123456789+/");
    proof {
        reveal_strlit("ABCDEFGHIJKLMNOPQRSTUVWXYZabcdefghijklmnopqrstuvwxyz0123456789+/");
    }
    assert(alphabet@.len() == 64);
    let mut out = String::new();
    let mut i: usize = 0;
    assert(input@.skip(0) =~= input@);
    assert(out@ + base64_spec(input@) =~= base64_spec(input@));
    while i < input.len()
        invariant
            alphabet@ == b64_alphabet(),
            alphabet@.len() == 64,
            0 <= i <= input@.len(),
            base64_spec(input@) == out@ + base64_spec(input@.skip(i as int)),
        decreases input@.len() - i,
    {
        let ghost rest = input@.skip(i as int);
        let n = input.len() - i;
        let b0 = input[i] as usize;
        let b1: usize = if n > 1 { input[i + 1] as usize } else { 0 };
        let b2: usize = if n > 2 { input[i + 2] as usize } else { 0 };
        let ghost before = out@;
        push_char(&mut out, alphabet[b0 / 4]);
        push_char(&mut out, alphabet[(b0 % 4) * 16 + b1 / 16]);
        if n > 1 {
            push_char(&mut out, alphabet[(b1 % 16) * 4 + b2 / 64]);
        } else {
            push_char(&mut out, '=');
        }
        if n > 2 {
            push_char(&mut out, alphabet[b2 % 64]);
        } else {
            push_char(&mut out, '=');
        }
        let step: usize = if n > 3 { 3 } else { n };
        proof {
            assert(rest[0] == input@[i as int]);
            if n > 1 {
                assert(rest[1] == input@[i + 1]);
            }
            if n > 2 {
                assert(rest[2] == input@[i + 2]);
            }
            assert(rest.skip(step as int) =~= input@.skip(i + step));
            let grp = out@.subrange(before.len() as int, out@.len() as int);
            assert(out@ =~= before + grp);
        }
        i = i + step;
    }
    assert(input@.skip(input@.len() as int) =~= Seq::<u8>::empty());
    assert(out@ + Seq::<char>::empty() =~= out@);
    out
}

/// The session token of the admin password: the base64 of
/// `f1clash-admin:<password>`.
pub fn session_token_for(password: &str) -> (r: String)
    ensures
        r@ == base64_spec("f1clash-admin:".spec_bytes() + password.spec_bytes()),
{
    let prefix = "f1clash-admin:".as_bytes();
    let pw = password.as_bytes();
    let mut bytes: Vec<u8> = Vec::new();
    let mut i: usize = 0;
    while i < prefix.len()
        invariant
            0 <= i <= prefix@.len(),
            bytes@ == prefix@.take(i as int),
        decreases prefix@.len() - i,
    {
        bytes.push(prefix[i]);
        assert(prefix@.take(i as int + 1) =~= prefix@.take(i as int).push(prefix@[i as int]));
        i = i + 1;
    }
    let mut j: usize = 0;
    while j < pw.len()
        invariant
            0 <= j <= pw@.len(),
            bytes@ == prefix@ + pw@.take(j as int),
        decreases pw@.len() - j,
    {
        bytes.push(pw[j]);
        assert(pw@.take(j as int + 1) =~= pw@.take(j as int).push(pw@[j as int]));
        j = j + 1;
    }
    assert(prefix@.take(prefix@.len() as int) =~= prefix@);
    assert(pw@.take(pw@.len() as int) =~= pw@);
    base64_encode(bytes.as_slice())
}


// ── Laws ──────────────────────────────────────────────────────────────────────

/// Base64 turns every started group of three bytes into four characters.
pub proof fn law_base64_length(bytes: Seq<u8>)
    ensures
        base64_spec(bytes).len() == 4 * ((bytes.len() + 2) / 3),
    decreases bytes.len(),
{
    if bytes.len() > 0 {
        let n = bytes.len();
        let step: int = if n > 3 { 3 } else { n as int };
        law_base64_length(bytes.skip(step));
    }
}

/// Base64 text holds only characters of its alphabet and `=`, never `;`.
pub proof fn law_base64_has_no_semicolon(bytes: Seq<u8>)
    ensures
        forall|i: int| 0 <= i < base64_spec(bytes).len() ==> #[trigger] base64_spec(bytes)[i] != ';',
    decreases bytes.len(),
{
    reveal_strlit("ABCDEFGHIJKLMNOPQRSTUVWXYZabcdefghijklmnopqrstuvwxyz0123456789+/");
    if bytes.len() > 0 {
        let n = bytes.len();
        let step: int = if n > 3 { 3 } else { n as int };
        law_base64_has_no_semicolon(bytes.skip(step));
        let rest = base64_spec(bytes.skip(step));
        let a = b64_alphabet();
        assert forall|k: int| 0 <= k < 64 implies a[k] != ';' by {}
        let b0 = bytes[0] as int;
        let b1 = if n > 1 { bytes[1] as int } else { 0 };
        let b2 = if n > 2 { bytes[2] as int } else { 0 };
        assert(0 <= b0 / 4 < 64 && 0 <= (b0 % 4) * 16 + b1 / 16 < 64);
        assert(0 <= (b1 % 16) * 4 + b2 / 64 < 64 && 0 <= b2 % 64 < 64);
        assert forall|i: int| 0 <= i < base64_spec(bytes).len() implies #[trigger] base64_spec(bytes)[i] != ';' by {
            if i >= 4 {
                assert(base64_spec(bytes)[i] == rest[i - 4]);
            }
        }
    }
}

proof fn lemma_split_without_semicolon(s: Seq<char>)
    requires
        forall|i: int| 0 <= i < s.len() ==> #[trigger] s[i] != ';',
    ensures
        split_spec(s, "; "@) == seq![s],
    decreases s.len(),
{
    reveal_strlit("; ");
    let sep = "; "@;
    if !(s.len() < sep.len()) {
        assert(s.take(2) != sep) by {
            assert(s.take(2)[0] == s[0]);
        }
        let t = s.skip(1);
        assert forall|i: int| 0 <= i < t.len() implies #[trigger] t[i] != ';' by {
            assert(t[i] == s[i + 1]);
        }
        lemma_split_without_semicolon(t);
        assert(seq![s[0]] + t =~= s);
    }
}

/// A browser that sends back the session token as its `admin_session`
/// cookie is logged in: the token, base64 text, holds no `;`, so the cookie
/// header `admin_session=<token>` yields it back.
pub proof fn law_session_cookie_logs_in(password: Seq<u8>)
    ensures
        ({
            let token = base64_spec("f1clash-admin:".spec_bytes() + password);
            auth_status_spec(Some(token), Some("admin_session="@ + token)) == (AuthStatus {
                enabled: true,
                logged_in: true,
            })
        }),
{
    reveal_strlit("admin_session=");
    reveal_strlit("admin_session");
    let token = base64_spec("f1clash-admin:".spec_bytes() + password);
    law_base64_has_no_semicolon("f1clash-admin:".spec_bytes() + password);
    let header = "admin_session="@ + token;
    assert forall|i: int| 0 <= i < header.len() implies #[trigger] header[i] != ';' by {
        if i >= 14 {
            assert(header[i] == token[i - 14]);
        }
    }
    lemma_split_without_semicolon(header);
    let pieces = split_spec(header, "; "@);
    let name = "admin_session"@;
    assert(name.push('=') =~= "admin_session="@);
    assert(is_prefix(name.push('='), pieces[0])) by {
        assert(pieces[0].subrange(0, 14) =~= name.push('='));
    }
    crate::find::lemma_first_where_found(1, |i: int| is_prefix(name.push('='), split_spec(header, "; "@)[i]), 0);
    assert(pieces[0].skip(name.len() as int + 1) =~= token);
}

} // verus!
