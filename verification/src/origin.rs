//! A tab's own site: the loopback URL its server is reached at, and the navigation gate that
//! keeps a tab's webview on that site. A doc linking off-site — or to another tab's loopback
//! port — opens in the system browser instead of stranding the tab.

use vstd::prelude::*;
use crate::text::{chars_of, dec_digit, decimal, lemma_decimal_injective, push_decimal, string_of, DEC_DIGITS};

verus! {

/// `http://`.
pub open spec fn http_scheme() -> Seq<char> {
    seq!['h', 't', 't', 'p', ':', '/', '/']
}

/// `127.0.0.1:`.
pub open spec fn loopback_host() -> Seq<char> {
    seq!['1', '2', '7', '.', '0', '.', '0', '.', '1', ':']
}

/// The authority a tab's site is served from: `127.0.0.1:{port}`.
pub open spec fn own_authority(port: u16) -> Seq<char> {
    loopback_host() + decimal(port as nat)
}

/// Index of the first `/`, `?` or `#` in `s`, or `s.len()` when there is none.
pub open spec fn authority_len(s: Seq<char>) -> nat
    decreases s.len(),
{
    if s.len() == 0 {
        0
    } else if s[0] == '/' || s[0] == '?' || s[0] == '#' {
        0
    } else {
        1 + authority_len(s.drop_first())
    }
}

/// `url` is exactly this tab's site: scheme `http`, and the authority (up to the first `/`, `?`
/// or `#`) is `127.0.0.1:{port}`.
pub open spec fn spec_is_own_origin(url: Seq<char>, port: u16) -> bool {
    let rest = url.skip(7);
    &&& url.len() >= 7
    &&& url.take(7) == http_scheme()
    &&& rest.take(authority_len(rest) as int) == own_authority(port)
}

/// The URL a tab's webview is pointed at: `http://127.0.0.1:{port}/`.
pub open spec fn spec_site_url(port: u16) -> Seq<char> {
    http_scheme() + own_authority(port) + seq!['/']
}

/// Append `http://` to `v`.
fn push_scheme(v: &mut Vec<char>)
    ensures
        final(v)@ == old(v)@ + http_scheme(),
{
    v.push('h');
    v.push('t');
    v.push('t');
    v.push('p');
    v.push(':');
    v.push('/');
    v.push('/');
}

/// Append `127.0.0.1:{port}` to `v`.
fn push_authority(v: &mut Vec<char>, port: u16)
    ensures
        final(v)@ == old(v)@ + own_authority(port),
{
    let ghost start = v@;
    v.push('1');
    v.push('2');
    v.push('7');
    v.push('.');
    v.push('0');
    v.push('.');
    v.push('0');
    v.push('.');
    v.push('1');
    v.push(':');
    assert(v@ =~= start + loopback_host());
    push_decimal(v, port as u64);
    assert(v@ =~= start + own_authority(port));
}

/// The loopback URL of the site served on `port`.
pub fn site_url(port: u16) -> (url: String)
    ensures
        url@ == spec_site_url(port),
{
    let mut v: Vec<char> = Vec::new();
    push_scheme(&mut v);
    push_authority(&mut v, port);
    v.push('/');
    assert(v@ =~= spec_site_url(port));
    string_of(&v)
}

/// True iff `url` is this tab's own site — scheme, host and port must all match. Anything else
/// (an off-site link, or even another tab's loopback port) is not.
pub fn is_own_origin(url: &str, port: u16) -> (r: bool)
    ensures
        r == spec_is_own_origin(url@, port),
{
    let cs = chars_of(url);
    let mut scheme: Vec<char> = Vec::new();
    push_scheme(&mut scheme);
    assert(scheme@ =~= http_scheme());
    if cs.len() < 7 {
        return false;
    }
    let mut i: usize = 0;
    while i < 7
        invariant
            cs@ == url@,
            cs@.len() >= 7,
            scheme@ == http_scheme(),
            i <= 7,
            forall|k: int| 0 <= k < i ==> cs@[k] == scheme@[k],
        decreases 7 - i,
    {
        if cs[i] != scheme[i] {
            assert(url@.take(7)[i as int] != http_scheme()[i as int]);
            return false;
        }
        i += 1;
    }
    assert(url@.take(7) =~= http_scheme());
    let ghost rest = url@.skip(7);
    let mut end: usize = 7;
    assert(rest =~= url@.subrange(7, url@.len() as int));
    while end < cs.len() && cs[end] != '/' && cs[end] != '?' && cs[end] != '#'
        invariant
            cs@ == url@,
            rest == url@.skip(7),
            7 <= end <= cs@.len(),
            authority_len(rest) == (end - 7) + authority_len(url@.subrange(end as int, url@.len() as int)),
        decreases cs@.len() - end,
    {
        assert(url@.subrange(end as int, url@.len() as int).drop_first() =~= url@.subrange(
            end + 1,
            url@.len() as int,
        ));
        end += 1;
    }
    assert(authority_len(url@.subrange(end as int, url@.len() as int)) == 0);
    let mut want: Vec<char> = Vec::new();
    push_authority(&mut want, port);
    assert(want@ =~= own_authority(port));
    if end - 7 != want.len() {
        return false;
    }
    let mut j: usize = 0;
    while j < want.len()
        invariant
            cs@ == url@,
            rest == url@.skip(7),
            want@ == own_authority(port),
            end - 7 == want@.len(),
            7 <= end <= cs@.len(),
            authority_len(rest) == end - 7,
            j <= want@.len(),
            forall|k: int| 0 <= k < j ==> cs@[7 + k] == want@[k],
        decreases want@.len() - j,
    {
        if cs[7 + j] != want[j] {
            assert(rest.take(authority_len(rest) as int)[j as int] != own_authority(port)[j as int]);
            return false;
        }
        j += 1;
    }
    assert(rest.take(authority_len(rest) as int) =~= own_authority(port));
    true
}

/// A URL passes `is_own_origin` for at most one port, so a tab's webview stays on its server
/// and never on another tab's.
pub proof fn law_one_port_per_origin(url: Seq<char>, p: u16, q: u16)
    requires
        spec_is_own_origin(url, p),
        spec_is_own_origin(url, q),
    ensures
        p == q,
{
    let a = own_authority(p);
    let b = own_authority(q);
    assert(a == b);
    assert(a.skip(10) =~= decimal(p as nat));
    assert(b.skip(10) =~= decimal(q as nat));
    lemma_decimal_injective(p as nat, q as nat);
}

/// The digits of a decimal rendering are `0`-`9`.
proof fn lemma_decimal_digits(n: nat)
    ensures
        forall|i: int| 0 <= i < decimal(n).len() ==> '0' <= #[trigger] decimal(n)[i] <= '9',
    decreases n,
{
    assert(DEC_DIGITS@ == seq!['0', '1', '2', '3', '4', '5', '6', '7', '8', '9']);
    assert forall|k: int| 0 <= k < 10 implies '0' <= #[trigger] DEC_DIGITS@[k] <= '9' by {}
    if n >= 10 {
        lemma_decimal_digits(n / 10);
        let d = decimal(n);
        let h = decimal(n / 10);
        assert(d == h.push(dec_digit(n % 10)));
        assert forall|i: int| 0 <= i < d.len() implies '0' <= #[trigger] d[i] <= '9' by {
            if i < h.len() {
                assert(d[i] == h[i]);
            } else {
                assert(d[i] == DEC_DIGITS@[(n % 10) as int]);
            }
        }
    } else {
        assert(decimal(n)[0] == DEC_DIGITS@[n as int]);
    }
}

/// The authority of `s + t` is `s` when `s` holds no `/`, `?` or `#` and `t` starts with `/`.
proof fn lemma_authority_len_prefix(s: Seq<char>, t: Seq<char>)
    requires
        forall|i: int| 0 <= i < s.len() ==> (#[trigger] s[i]) != '/' && s[i] != '?' && s[i] != '#',
        t.len() > 0,
        t[0] == '/',
    ensures
        authority_len(s + t) == s.len(),
    decreases s.len(),
{
    if s.len() == 0 {
        assert(s + t =~= t);
    } else {
        assert((s + t).drop_first() =~= s.drop_first() + t);
        lemma_authority_len_prefix(s.drop_first(), t);
    }
}

/// The URL a tab's webview is pointed at passes that tab's own gate.
pub proof fn law_site_url_is_own_origin(port: u16)
    ensures
        spec_is_own_origin(spec_site_url(port), port),
{
    let url = spec_site_url(port);
    let auth = own_authority(port);
    lemma_decimal_digits(port as nat);
    assert forall|i: int| 0 <= i < auth.len() implies (#[trigger] auth[i]) != '/' && auth[i] != '?' && auth[i] != '#' by {
        if i >= 10 {
            assert(auth[i] == decimal(port as nat)[i - 10]);
        }
    }
    assert(url.take(7) =~= http_scheme());
    assert(url.skip(7) =~= auth + seq!['/']);
    lemma_authority_len_prefix(auth, seq!['/']);
    assert(url.skip(7).take(auth.len() as int) =~= auth);
}

} // verus!
