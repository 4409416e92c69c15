//! The address the server listens on.
use vstd::prelude::*;
use vstd::string::StrSliceExecFns;
use crate::config::ConfigError;

verus! {

/// The port used when none is configured.
pub const DEFAULT_PORT: u16 = 8080;

pub open spec fn is_digit(c: char) -> bool {
    '0' <= c && c <= '9'
}

pub open spec fn all_digits(s: Seq<char>) -> bool {
    forall|i: int| 0 <= i < s.len() ==> is_digit(#[trigger] s[i])
}

/// The number that a text of decimal digits writes.
pub open spec fn decimal_value(s: Seq<char>) -> nat
    decreases s.len(),
{
    if s.len() == 0 {
        0
    } else {
        decimal_value(s.drop_last()) * 10 + (s.last() as u32 - '0' as u32) as nat
    }
}

/// The digits of a number text, past an optional leading `+`.
pub open spec fn unsigned_digits(s: Seq<char>) -> Seq<char> {
    if s.len() > 0 && s[0] == '+' {
        s.drop_first()
    } else {
        s
    }
}

/// The text writes a port: a decimal number from 1 to 65535, with an
/// optional leading `+`.
pub open spec fn port_text_valid(s: Seq<char>) -> bool {
    let d = unsigned_digits(s);
    d.len() > 0 && all_digits(d) && 1 <= decimal_value(d) <= 65535
}

/// The port that a valid port text writes.
pub open spec fn port_value(s: Seq<char>) -> nat {
    decimal_value(unsigned_digits(s))
}

proof fn lemma_prefix_value_le(s: Seq<char>, i: int)
    requires
        all_digits(s),
        0 <= i <= s.len(),
    ensures
        decimal_value(s.take(i)) <= decimal_value(s),
    decreases s.len() - i,
{
    if i < s.len() {
        lemma_prefix_value_le(s, i + 1);
        assert(s.take(i + 1).drop_last() =~= s.take(i));
        assert(is_digit(s[i]));
    } else {
        assert(s.take(i) =~= s);
    }
}

/// Reads a port text.
pub fn parse_port(text: &str) -> (r: Result<u16, ConfigError>)
    ensures
        port_text_valid(text@) <==> r is Ok,
        r matches Ok(p) ==> p as nat == port_value(text@),
        r matches Err(e) ==> e matches ConfigError::InvalidPort(t) && t@ == text@,
{
    let n = text.unicode_len();
    let start: usize = if n > 0 && text.get_char(0) == '+' {
        1
    } else {
        0
    };
    let ghost d = unsigned_digits(text@);
    assert(d =~= text@.skip(start as int));
    if start == n {
        return Err(ConfigError::InvalidPort(text.to_owned()));
    }
    let mut v: u32 = 0;
    let mut j: usize = start;
    while j < n
        invariant
            n == text@.len(),
            start <= j <= n,
            d == text@.skip(start as int),
            d == unsigned_digits(text@),
            all_digits(d.take(j - start)),
            v as nat == decimal_value(d.take(j - start)),
            v <= 65535,
        decreases n - j,
    {
        let c = text.get_char(j);
        assert(d[j - start] == c);
        if !('0' <= c && c <= '9') {
            assert(!all_digits(d));
            assert(!port_text_valid(text@));
            return Err(ConfigError::InvalidPort(text.to_owned()));
        }
        assert(d.take(j + 1 - start).drop_last() =~= d.take(j - start));
        assert(d.take(j + 1 - start).last() == c);
        v = v * 10 + (c as u32 - '0' as u32);
        j = j + 1;
        assert(v as nat == decimal_value(d.take(j - start)));
        if v > 65535 {
            proof {
                if all_digits(d) {
                    lemma_prefix_value_le(d, j - start);
                }
            }
            assert(!port_text_valid(text@));
            return Err(ConfigError::InvalidPort(text.to_owned()));
        }
    }
    assert(d.take(n - start) =~= d);
    if v == 0 {
        return Err(ConfigError::InvalidPort(text.to_owned()));
    }
    Ok(v as u16)
}

/// The host and port that the server binds.
#[derive(Debug, Clone, PartialEq, Eq)]
pub struct ListenAddress {
    pub host: String,
    pub port: u16,
}

/// The host used when none is configured.
pub open spec fn default_host() -> Seq<char> {
    seq!['0', '.', '0', '.', '0', '.', '0']
}

/// The listening address from the configured host and port texts; an absent
/// host is the wildcard address, an absent port is the default port.
pub fn resolve_listen_address(host: Option<String>, port: Option<String>) -> (r: Result<
    ListenAddress,
    ConfigError,
>)
    ensures
        r is Ok <==> (port matches Some(p) ==> port_text_valid(p@)),
        r matches Ok(a) ==> (match host {
            Some(h) => a.host@ == h@,
            None => a.host@ == default_host(),
        }),
        r matches Ok(a) ==> (match port {
            Some(p) => a.port as nat == port_value(p@),
            None => a.port == DEFAULT_PORT,
        }),
        r matches Err(e) ==> port matches Some(p) && e == ConfigError::InvalidPort(p),
{
    let port = match port {
        Some(p) => match parse_port(p.as_str()) {
            Ok(v) => v,
            Err(_) => return Err(ConfigError::InvalidPort(p)),
        },
        None => DEFAULT_PORT,
    };
    let host = match host {
        Some(h) => h,
        None => {
            let d = "0.0.0.0";
            proof {
                reveal_strlit("0.0.0.0");
            }
            d.to_owned()
        },
    };
    Ok(ListenAddress { host, port })
}

} // verus!
