//! Addresses and other short texts that peers build.

use vstd::prelude::*;
use vstd::string::{StrSliceExecFns, StringExecFns};

verus! {

/// The text `http://`.
pub open spec fn http_scheme() -> Seq<char> {
    seq!['h', 't', 't', 'p', ':', '/', '/']
}

/// The text `https://`.
pub open spec fn https_scheme() -> Seq<char> {
    seq!['h', 't', 't', 'p', 's', ':', '/', '/']
}

/// `a` followed by `b`.
pub fn concat(a: &str, b: &str) -> (r: String)
    ensures
        r@ == a@ + b@,
{
    let mut r = String::from_str(a);
    r.append(b);
    r
}

/// The address `host:port`.
pub fn host_port(host: &str, port: &str) -> (r: String)
    ensures
        r@ == host@ + seq![':'] + port@,
{
    let colon = ":";
    proof {
        reveal_strlit(":");
    }
    assert(colon@ =~= seq![':']);
    let mut r = String::from_str(host);
    r.append(colon);
    r.append(port);
    r
}

/// The URL `http://addr`.
pub fn http_url(addr: &str) -> (r: String)
    ensures
        r@ == http_scheme() + addr@,
{
    let scheme = "http://";
    proof {
        reveal_strlit("http://");
    }
    assert(scheme@ =~= http_scheme());
    concat(scheme, addr)
}

/// The URL `https://addr`.
pub fn https_url(addr: &str) -> (r: String)
    ensures
        r@ == https_scheme() + addr@,
{
    let scheme = "https://";
    proof {
        reveal_strlit("https://");
    }
    assert(scheme@ =~= https_scheme());
    concat(scheme, addr)
}


/// Specification of `String::push`.
///
/// std documents `push` as appending the given `char` to the end of the
/// `String`; the contract states that and nothing more.
pub assume_specification[ String::push ](s: &mut String, ch: char)
    ensures
        final(s)@ == old(s)@.push(ch),
;

/// The character of the decimal digit `d`.
pub open spec fn digit_char(d: int) -> char {
    ((48 + d) as u8) as char
}

/// The decimal numeral of `n`, without leading zeros.
pub open spec fn decimal(n: nat) -> Seq<char>
    decreases n,
{
    if n < 10 {
        seq![digit_char(n as int)]
    } else {
        decimal(n / 10).push(digit_char((n % 10) as int))
    }
}

fn push_decimal(s: &mut String, n: u32)
    ensures
        final(s)@ == old(s)@ + decimal(n as nat),
    decreases n,
{
    if n >= 10 {
        push_decimal(s, n / 10);
    }
    let d = (n % 10) as u8;
    s.push((48u8 + d) as char);
    assert(s@ =~= old(s)@ + decimal(n as nat));
}

/// The decimal numeral of `n`.
pub fn decimal_string(n: u32) -> (r: String)
    ensures
        r@ == decimal(n as nat),
{
    let mut r = String::new();
    push_decimal(&mut r, n);
    assert(r@ =~= decimal(n as nat));
    r
}

/// `s[k]` is the second-to-last `/` of `s`.
pub open spec fn is_second_last_slash(s: Seq<char>, k: int) -> bool {
    &&& 0 <= k < s.len()
    &&& s[k] == '/'
    &&& exists|m: int|
        k < m < s.len() && s[m] == '/' && forall|j: int|
            k < j < s.len() && j != m ==> #[trigger] s[j] != '/'
}

/// The last two `/`-separated components of a path, with the `/` between
/// them: what follows its second-to-last `/`, or the whole path when it has
/// fewer than two.
pub open spec fn last_two_components(s: Seq<char>) -> Seq<char> {
    if exists|k: int| is_second_last_slash(s, k) {
        s.subrange((choose|k: int| is_second_last_slash(s, k)) + 1, s.len() as int)
    } else {
        s
    }
}

proof fn lemma_second_last_slash_unique(s: Seq<char>, k1: int, k2: int)
    requires
        is_second_last_slash(s, k1),
        is_second_last_slash(s, k2),
    ensures
        k1 == k2,
{
    if k1 < k2 {
        let m2 = choose|m: int|
            k2 < m < s.len() && s[m] == '/' && forall|j: int|
                k2 < j < s.len() && j != m ==> #[trigger] s[j] != '/';
        let m1 = choose|m: int|
            k1 < m < s.len() && s[m] == '/' && forall|j: int|
                k1 < j < s.len() && j != m ==> #[trigger] s[j] != '/';
        assert(s[k2] == '/' && s[m2] == '/');
    } else if k2 < k1 {
        let m1 = choose|m: int|
            k1 < m < s.len() && s[m] == '/' && forall|j: int|
                k1 < j < s.len() && j != m ==> #[trigger] s[j] != '/';
        let m2 = choose|m: int|
            k2 < m < s.len() && s[m] == '/' && forall|j: int|
                k2 < j < s.len() && j != m ==> #[trigger] s[j] != '/';
        assert(s[k1] == '/' && s[m1] == '/');
    }
}

/// The last two `/`-separated components of `path`, joined by `/`.
pub fn last_two_components_of(path: &str) -> (r: String)
    ensures
        r@ == last_two_components(path@),
{
    let n = path.unicode_len();
    let mut i: usize = n;
    let mut last: Option<usize> = None;
    while i > 0
        invariant
            n == path@.len(),
            i <= n,
            last is None ==> forall|j: int| i <= j < n ==> #[trigger] path@[j] != '/',
            last matches Some(m) ==> i <= m < n && path@[m as int] == '/' && forall|j: int|
                i <= j < n && j != m ==> #[trigger] path@[j] != '/',
        decreases i,
    {
        let c = path.get_char(i - 1);
        if c == '/' {
            match last {
                Some(m) => {
                    proof {
                        assert(is_second_last_slash(path@, i - 1));
                        let k = choose|k: int| is_second_last_slash(path@, k);
                        lemma_second_last_slash_unique(path@, k, i - 1);
                    }
                    let tail = path.substring_char(i, n);
                    return String::from_str(tail);
                },
                None => {
                    last = Some(i - 1);
                },
            }
        }
        i = i - 1;
    }
    proof {
        if exists|k: int| is_second_last_slash(path@, k) {
            let k = choose|k: int| is_second_last_slash(path@, k);
            let m = choose|m: int|
                k < m < path@.len() && path@[m] == '/' && forall|j: int|
                    k < j < path@.len() && j != m ==> #[trigger] path@[j] != '/';
            assert(path@[k] == '/');
            assert(path@[m] == '/');
        }
    }
    String::from_str(path)
}


/// `s[k]` is the last `/` of `s`.
pub open spec fn is_last_slash(s: Seq<char>, k: int) -> bool {
    &&& 0 <= k < s.len()
    &&& s[k] == '/'
    &&& forall|j: int| k < j < s.len() ==> #[trigger] s[j] != '/'
}

/// The last `/`-separated component of a path: what follows its last `/`,
/// or the whole path when it has none.
pub open spec fn last_component(s: Seq<char>) -> Seq<char> {
    if exists|k: int| is_last_slash(s, k) {
        s.subrange((choose|k: int| is_last_slash(s, k)) + 1, s.len() as int)
    } else {
        s
    }
}

/// The last `/`-separated component of `path`.
pub fn last_component_of(path: &str) -> (r: String)
    ensures
        r@ == last_component(path@),
{
    let n = path.unicode_len();
    let mut i: usize = n;
    while i > 0
        invariant
            n == path@.len(),
            i <= n,
            forall|j: int| i <= j < n ==> #[trigger] path@[j] != '/',
        decreases i,
    {
        if path.get_char(i - 1) == '/' {
            proof {
                assert(is_last_slash(path@, i - 1));
                let k = choose|k: int| is_last_slash(path@, k);
                if k < i - 1 {
                    assert(path@[i - 1] == '/');
                } else if k > i - 1 {
                    assert(path@[k] == '/');
                }
            }
            return String::from_str(path.substring_char(i, n));
        }
        i = i - 1;
    }
    proof {
        if exists|k: int| is_last_slash(path@, k) {
            let k = choose|k: int| is_last_slash(path@, k);
            assert(path@[k] == '/');
        }
    }
    String::from_str(path)
}

} // verus!
