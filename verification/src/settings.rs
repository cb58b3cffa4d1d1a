//! Application settings: defaults, normalization, proxy selection and
//! proxy URL validation.
use vstd::prelude::*;
use vstd::string::StrSliceExecFns;
use crate::types::{AppSettings, ProxySettings, ProxyType};
use crate::text::{str_starts_with, str_last_index_of};

verus! {

/// Default settings: everything unset.
pub fn get_default_settings() -> (r: AppSettings)
    ensures
        r.download_path is None,
        r.default_editor is None,
        r.proxy is None,
        r.github_token is None,
{
    AppSettings { download_path: None, default_editor: None, proxy: None, github_token: None }
}

/// Settings as they are persisted: an empty download path or editor stands
/// for "unset".
pub fn normalize_settings(settings: AppSettings) -> (r: AppSettings)
    ensures
        r.download_path == (match settings.download_path {
            Some(p) => if p@.len() == 0 {
                None
            } else {
                Some(p)
            },
            None => None::<String>,
        }),
        r.default_editor == (match settings.default_editor {
            Some(e) => if e@.len() == 0 {
                None
            } else {
                Some(e)
            },
            None => None::<String>,
        }),
        r.proxy == settings.proxy,
        r.github_token == settings.github_token,
{
    let AppSettings { download_path, default_editor, proxy, github_token } = settings;
    let download_path = match download_path {
        Some(p) => if p.as_str().is_empty() {
            None
        } else {
            Some(p)
        },
        None => None,
    };
    let default_editor = match default_editor {
        Some(e) => if e.as_str().is_empty() {
            None
        } else {
            Some(e)
        },
        None => None,
    };
    AppSettings { download_path, default_editor, proxy, github_token }
}

/// The environment variable that carries a proxy of the given kind.
pub open spec fn proxy_env_name(t: ProxyType) -> Seq<char> {
    match t {
        ProxyType::Http => "HTTP_PROXY"@,
        ProxyType::Https => "HTTPS_PROXY"@,
        ProxyType::Socks4 => "ALL_PROXY"@,
        ProxyType::Socks5 => "ALL_PROXY"@,
    }
}

/// The environment variable and value to hand a spawned command so that it
/// uses the configured proxy; nothing when the proxy is disabled.
pub fn get_proxy_env_var(settings: &ProxySettings) -> (r: Option<(String, String)>)
    ensures
        match r {
            Some(p) => settings.enabled && p.0@ == proxy_env_name(settings.proxy_type) && p.1@
                == settings.url@,
            None => !settings.enabled,
        },
{
    if !settings.enabled {
        return None;
    }
    let env_var_name: &str = match settings.proxy_type {
        ProxyType::Http => "HTTP_PROXY",
        ProxyType::Https => "HTTPS_PROXY",
        ProxyType::Socks4 => "ALL_PROXY",
        ProxyType::Socks5 => "ALL_PROXY",
    };
    Some((env_var_name.to_owned(), settings.url.clone()))
}

// ---------------------------------------------------------------------------
// Proxy URL validation
// ---------------------------------------------------------------------------

/// The scheme a proxy URL of the given kind must start with.
pub open spec fn expected_prefix(t: ProxyType) -> Seq<char> {
    match t {
        ProxyType::Http => "http://"@,
        ProxyType::Https => "https://"@,
        ProxyType::Socks4 => "socks4://"@,
        ProxyType::Socks5 => "socks5://"@,
    }
}

/// The exact report for a URL that lacks its expected scheme.
pub open spec fn prefix_issue_msg(t: ProxyType) -> Seq<char> {
    match t {
        ProxyType::Http => "Proxy URL must start with http:// for Http proxy type"@,
        ProxyType::Https => "Proxy URL must start with https:// for Https proxy type"@,
        ProxyType::Socks4 => "Proxy URL must start with socks4:// for Socks4 proxy type"@,
        ProxyType::Socks5 => "Proxy URL must start with socks5:// for Socks5 proxy type"@,
    }
}

pub open spec fn is_dec_digit(c: char) -> bool {
    '0' <= c && c <= '9'
}

pub open spec fn all_dec_digits(s: Seq<char>) -> bool {
    forall|i: int| 0 <= i < s.len() ==> is_dec_digit(#[trigger] s[i])
}

/// The value of a decimal digit string.
pub open spec fn dec_val(s: Seq<char>) -> int
    decreases s.len(),
{
    if s.len() == 0 {
        0
    } else {
        dec_val(s.drop_last()) * 10 + (s.last() as int - '0' as int)
    }
}

/// Whether a string parses as a 16-bit port number: an optional leading
/// plus sign, then decimal digits whose value fits.
pub open spec fn u16_parseable(s: Seq<char>) -> bool {
    let body = if s.len() >= 1 && s[0] == '+' {
        s.skip(1)
    } else {
        s
    };
    body.len() >= 1 && all_dec_digits(body) && dec_val(body) <= 65535
}

/// The suffix after the last occurrence of `c`; meaningful only when `s`
/// contains `c`.
pub open spec fn after_last(s: Seq<char>, c: char) -> Seq<char> {
    let i = choose|i: int| 0 <= i < s.len() && s[i] == c && forall|j: int| i < j < s.len() ==> s[j] != c;
    s.skip(i + 1)
}

/// The first problem a proxy URL has for the given kind, with its exact
/// report; `None` when the URL is acceptable.
pub open spec fn proxy_url_issue(url: Seq<char>, t: ProxyType) -> Option<Seq<char>> {
    let p = expected_prefix(t);
    if !(url.len() >= p.len() && url.subrange(0, p.len() as int) == p) {
        Some(prefix_issue_msg(t))
    } else if url.len() == p.len() {
        Some("Proxy URL must include host and port"@)
    } else if !url.skip(p.len() as int).contains(':') {
        Some("Proxy URL must include port (format: host:port)"@)
    } else if !u16_parseable(after_last(url.skip(p.len() as int), ':')) {
        Some("Proxy URL port must be a valid number (1-65535)"@)
    } else {
        None
    }
}

proof fn lemma_dec_val_nonneg(s: Seq<char>)
    requires
        all_dec_digits(s),
    ensures
        dec_val(s) >= 0,
    decreases s.len(),
{
    if s.len() > 0 {
        assert(is_dec_digit(s[s.len() - 1]));
        assert(all_dec_digits(s.drop_last())) by {
            assert(forall|i: int| 0 <= i < s.len() - 1 ==> s.drop_last()[i] == s[i]);
        }
        lemma_dec_val_nonneg(s.drop_last());
    }
}

proof fn lemma_dec_val_prefix_le(s: Seq<char>, i: int)
    requires
        all_dec_digits(s),
        0 <= i <= s.len(),
    ensures
        dec_val(s.take(i)) <= dec_val(s),
    decreases s.len() - i,
{
    assert(all_dec_digits(s.take(i))) by {
        assert(forall|j: int| 0 <= j < i ==> s.take(i)[j] == s[j]);
    }
    if i < s.len() {
        lemma_dec_val_prefix_le(s, i + 1);
        assert(s.take(i + 1).drop_last() =~= s.take(i));
        assert(s.take(i + 1).last() == s[i]);
        assert(dec_val(s.take(i + 1)) == dec_val(s.take(i)) * 10 + (s[i] as int - '0' as int));
        lemma_dec_val_nonneg(s.take(i));
        assert(is_dec_digit(s[i]));
    } else {
        assert(s.take(i) =~= s);
    }
}

/// Whether the characters of `s` from position `from` on parse as a 16-bit
/// port number.
fn parse_port_from(s: &str, from: usize) -> (b: bool)
    requires
        from as int <= s@.len(),
    ensures
        b == u16_parseable(s@.skip(from as int)),
{
    let ghost port = s@.skip(from as int);
    let l = s.unicode_len();
    let mut start = from;
    if start < l && s.get_char(start) == '+' {
        proof {
            assert(port[0] == '+');
        }
        start = start + 1;
    }
    let ghost body = s@.skip(start as int);
    proof {
        if port.len() >= 1 && port[0] == '+' {
            assert(body =~= port.skip(1));
        } else {
            assert(body =~= port);
        }
    }
    if start >= l {
        proof {
            assert(body.len() == 0);
        }
        return false;
    }
    let mut val: u32 = 0;
    for i in start..l
        invariant
            l == s@.len(),
            start <= i <= l,
            port == s@.skip(from as int),
            body == s@.skip(start as int),
            u16_parseable(port) <==> (body.len() >= 1 && all_dec_digits(body) && dec_val(body)
                <= 65535),
            all_dec_digits(body.take(i - start)),
            val <= 65535,
            val as int == dec_val(body.take(i - start)),
    {
        let c = s.get_char(i);
        proof {
            assert(body[i - start] == s@[i as int]);
        }
        if !('0' <= c && c <= '9') {
            proof {
                assert(!is_dec_digit(body[i - start]));
                assert(!all_dec_digits(body));
            }
            return false;
        }
        let d: u32 = (c as u32) - ('0' as u32);
        let next: u32 = val * 10 + d;
        proof {
            assert(body.take(i - start + 1).drop_last() =~= body.take(i - start));
            assert(body.take(i - start + 1).last() == body[i - start]);
            assert(dec_val(body.take(i - start + 1)) == dec_val(body.take(i - start)) * 10 + (
            c as int - '0' as int));
            assert forall|j: int| 0 <= j < i - start + 1 implies is_dec_digit(
                #[trigger] body.take(i - start + 1)[j],
            ) by {
                if j < i - start {
                    assert(body.take(i - start + 1)[j] == body.take(i - start)[j]);
                    assert(is_dec_digit(body.take(i - start)[j]));
                } else {
                    assert(body.take(i - start + 1)[j] == body[i - start]);
                }
            }
        }
        if next > 65535 {
            proof {
                if u16_parseable(port) {
                    assert(all_dec_digits(body));
                    lemma_dec_val_prefix_le(body, i - start + 1);
                    assert(dec_val(body.take(i - start + 1)) <= dec_val(body));
                }
            }
            return false;
        }
        val = next;
    }
    proof {
        assert(body.take(l - start) =~= body);
        assert(body.len() >= 1);
    }
    true
}

/// Validate a proxy URL against its kind: scheme, non-empty host and port,
/// and a numeric port. Returns exactly the first problem found.
pub fn validate_proxy_url(url: &str, proxy_type: &ProxyType) -> (r: Result<(), String>)
    ensures
        match r {
            Ok(()) => proxy_url_issue(url@, *proxy_type) is None,
            Err(m) => proxy_url_issue(url@, *proxy_type) == Some(m@),
        },
{
    let ghost pt = *proxy_type;
    let expected: &str = match proxy_type {
        ProxyType::Http => "http://",
        ProxyType::Https => "https://",
        ProxyType::Socks4 => "socks4://",
        ProxyType::Socks5 => "socks5://",
    };
    proof {
        assert(expected@ == expected_prefix(pt));
    }
    if !str_starts_with(url, expected) {
        let msg: &str = match proxy_type {
            ProxyType::Http => "Proxy URL must start with http:// for Http proxy type",
            ProxyType::Https => "Proxy URL must start with https:// for Https proxy type",
            ProxyType::Socks4 => "Proxy URL must start with socks4:// for Socks4 proxy type",
            ProxyType::Socks5 => "Proxy URL must start with socks5:// for Socks5 proxy type",
        };
        return Err(msg.to_owned());
    }
    let pl = expected.unicode_len();
    let ul = url.unicode_len();
    let ghost rest = url@.skip(pl as int);
    if ul == pl {
        return Err("Proxy URL must include host and port".to_owned());
    }
    match str_last_index_of(url, ':') {
        None => {
            proof {
                // the prefix itself holds a colon, so this cannot happen;
                // still, a colon-free remainder is exactly this report
                assert(!rest.contains(':')) by {
                    if rest.contains(':') {
                        let j = choose|j: int| 0 <= j < rest.len() && rest[j] == ':';
                        assert(url@[pl + j] == ':');
                    }
                }
            }
            Err("Proxy URL must include port (format: host:port)".to_owned())
        },
        Some(li) => {
            if li < pl {
                proof {
                    assert(!rest.contains(':')) by {
                        if rest.contains(':') {
                            let j = choose|j: int| 0 <= j < rest.len() && rest[j] == ':';
                            assert(url@[pl + j] == ':');
                        }
                    }
                }
                return Err("Proxy URL must include port (format: host:port)".to_owned());
            }
            proof {
                assert(rest[li - pl] == ':');
                assert(rest.contains(':'));
                // the last colon of the remainder sits exactly there
                let w = li - pl;
                assert(0 <= w < rest.len() && rest[w] == ':' && forall|j: int|
                    w < j < rest.len() ==> rest[j] != ':') by {
                    assert forall|j: int| w < j < rest.len() implies rest[j] != ':' by {
                        assert(rest[j] == url@[pl + j]);
                    }
                }
                let i = choose|i: int|
                    0 <= i < rest.len() && rest[i] == ':' && forall|j: int|
                        i < j < rest.len() ==> rest[j] != ':';
                assert(i == w) by {
                    if i < w {
                        assert(rest[w] != ':');
                    }
                    if i > w {
                        assert(rest[i] != ':');
                    }
                }
                assert(after_last(rest, ':') =~= url@.skip(li + 1));
            }
            if parse_port_from(url, li + 1) {
                Ok(())
            } else {
                Err("Proxy URL port must be a valid number (1-65535)".to_owned())
            }
        },
    }
}

} // verus!
