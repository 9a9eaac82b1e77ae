//! The commands a peer's user types.

use vstd::prelude::*;
use vstd::string::{StrSliceExecFns, StringExecFns};

verus! {

/// What the user asked for.
#[derive(Debug)]
pub enum Command {
    /// An empty line.
    Empty,
    Exit,
    Help,
    Info,
    List,
    Refresh,
    /// Search for a file; `None` when no name followed.
    Search(Option<String>),
    /// Download a file; `None` when no name followed.
    Get(Option<String>),
    /// Anything else.
    Invalid,
}

/// The Unicode `White_Space` characters, which `char::is_whitespace` accepts.
pub open spec fn is_white(c: char) -> bool {
    let u = c as u32;
    ||| 0x09 <= u <= 0x0d
    ||| u == 0x20
    ||| u == 0x85
    ||| u == 0xa0
    ||| u == 0x1680
    ||| 0x2000 <= u <= 0x200a
    ||| u == 0x2028
    ||| u == 0x2029
    ||| u == 0x202f
    ||| u == 0x205f
    ||| u == 0x3000
}

/// The first position from `i` on that holds no white space (or the end).
pub open spec fn skip_white(s: Seq<char>, i: int) -> int
    decreases s.len() - i,
{
    if i < 0 || i >= s.len() {
        i
    } else if is_white(s[i]) {
        skip_white(s, i + 1)
    } else {
        i
    }
}

/// The first position from `i` on that holds white space (or the end).
pub open spec fn word_end(s: Seq<char>, i: int) -> int
    decreases s.len() - i,
{
    if i < 0 || i >= s.len() {
        i
    } else if is_white(s[i]) {
        i
    } else {
        word_end(s, i + 1)
    }
}

/// The position after the last character before `j` that is no white space
/// (0 when there is none).
pub open spec fn text_end(s: Seq<char>, j: int) -> int
    decreases j,
{
    if j <= 0 || j > s.len() {
        0
    } else if is_white(s[j - 1]) {
        text_end(s, j - 1)
    } else {
        j
    }
}

/// `s` without leading and trailing white space.
pub open spec fn trimmed(s: Seq<char>) -> Seq<char> {
    let a = skip_white(s, 0);
    let e = text_end(s, s.len() as int);
    if a < e {
        s.subrange(a, e)
    } else {
        Seq::empty()
    }
}

/// The word of `s` that starts at the first non-white position from `i`.
pub open spec fn word_at(s: Seq<char>, i: int) -> Seq<char> {
    s.subrange(skip_white(s, i), word_end(s, skip_white(s, i)))
}

/// The first word of `s`, if any.
pub open spec fn first_word(s: Seq<char>) -> Option<Seq<char>> {
    if skip_white(s, 0) < s.len() {
        Some(word_at(s, 0))
    } else {
        None
    }
}

/// The second word of `s`, if any.
pub open spec fn second_word(s: Seq<char>) -> Option<Seq<char>> {
    let b = word_end(s, skip_white(s, 0));
    if skip_white(s, 0) < s.len() && skip_white(s, b) < s.len() {
        Some(word_at(s, b))
    } else {
        None
    }
}

/// The upper-case form of `s` under Unicode case mapping, the result of
/// `str::to_uppercase`.
pub uninterp spec fn upper_case(s: Seq<char>) -> Seq<char>;

/// The ASCII upper-case form of `c`: `a` to `z` become `A` to `Z`; every
/// other character stays.
pub open spec fn ascii_upper(c: char) -> char {
    let u = c as u32;
    if 97 <= u <= 122 {
        (u - 32) as char
    } else {
        c
    }
}

/// Every character of `s` is ASCII.
pub open spec fn all_ascii(s: Seq<char>) -> bool {
    forall|i: int| 0 <= i < s.len() ==> (#[trigger] s[i] as u32) < 128
}

/// `str::to_uppercase`.
///
/// Its result is a function of its argument alone (the Unicode case tables
/// of the std build), which the contract names. Of the mapping it states
/// only what the Unicode case tables give for ASCII text: `a` to `z` become
/// `A` to `Z` and every other ASCII character stays; of other characters it
/// says nothing.
#[verifier::external_body]
fn to_upper(s: &str) -> (r: String)
    ensures
        r@ == upper_case(s@),
        all_ascii(s@) ==> r@ == s@.map_values(|c: char| ascii_upper(c)),
{
    s.to_uppercase()
}

pub open spec fn kw_exit() -> Seq<char> {
    seq!['E', 'X', 'I', 'T']
}

pub open spec fn kw_help() -> Seq<char> {
    seq!['H', 'E', 'L', 'P']
}

pub open spec fn kw_info() -> Seq<char> {
    seq!['I', 'N', 'F', 'O']
}

pub open spec fn kw_list() -> Seq<char> {
    seq!['L', 'I', 'S', 'T']
}

pub open spec fn kw_refresh() -> Seq<char> {
    seq!['R', 'E', 'F', 'R', 'E', 'S', 'H']
}

pub open spec fn kw_search() -> Seq<char> {
    seq!['S', 'E', 'A', 'R', 'C', 'H']
}

pub open spec fn kw_get() -> Seq<char> {
    seq!['G', 'E', 'T']
}

/// The command that the upper-cased keyword `keyword` and the argument `arg`
/// make.
pub open spec fn command_matches(c: Command, keyword: Seq<char>, arg: Option<Seq<char>>) -> bool {
    let k = trimmed(keyword);
    if k == kw_exit() {
        c is Exit
    } else if k == kw_help() {
        c is Help
    } else if k == kw_info() {
        c is Info
    } else if k == kw_list() {
        c is List
    } else if k == kw_refresh() {
        c is Refresh
    } else if k == kw_search() {
        c matches Command::Search(a) && (a is None <==> arg is None) && (a matches Some(w) ==> arg
            == Some(w@))
    } else if k == kw_get() {
        c matches Command::Get(a) && (a is None <==> arg is None) && (a matches Some(w) ==> arg
            == Some(w@))
    } else {
        c is Invalid
    }
}

/// Whether `c` is white space.
pub fn white(c: char) -> (b: bool)
    ensures
        b == is_white(c),
{
    let u = c as u32;
    (0x09 <= u && u <= 0x0d) || u == 0x20 || u == 0x85 || u == 0xa0 || u == 0x1680 || (0x2000
        <= u && u <= 0x200a) || u == 0x2028 || u == 0x2029 || u == 0x202f || u == 0x205f || u
        == 0x3000
}

fn skip_white_exec(s: &str, n: usize, i: usize) -> (j: usize)
    requires
        n == s@.len(),
        i <= n,
    ensures
        j == skip_white(s@, i as int),
        i <= j <= n,
{
    let mut j = i;
    while j < n && white(s.get_char(j))
        invariant
            n == s@.len(),
            i <= j <= n,
            skip_white(s@, i as int) == skip_white(s@, j as int),
        decreases n - j,
    {
        j = j + 1;
    }
    j
}

fn word_end_exec(s: &str, n: usize, i: usize) -> (j: usize)
    requires
        n == s@.len(),
        i <= n,
    ensures
        j == word_end(s@, i as int),
        i <= j <= n,
{
    let mut j = i;
    while j < n && !white(s.get_char(j))
        invariant
            n == s@.len(),
            i <= j <= n,
            word_end(s@, i as int) == word_end(s@, j as int),
        decreases n - j,
    {
        j = j + 1;
    }
    j
}

/// `s` without leading and trailing white space.
pub fn trim_text(s: &str) -> (r: String)
    ensures
        r@ == trimmed(s@),
{
    let n = s.unicode_len();
    let a = skip_white_exec(s, n, 0);
    let mut e = n;
    while e > 0 && white(s.get_char(e - 1))
        invariant
            n == s@.len(),
            e <= n,
            text_end(s@, n as int) == text_end(s@, e as int),
        decreases e,
    {
        e = e - 1;
    }
    if a < e {
        String::from_str(s.substring_char(a, e))
    } else {
        proof {
            lemma_text_end_bound(s@, e as int);
        }
        String::new()
    }
}

proof fn lemma_text_end_bound(s: Seq<char>, j: int)
    requires
        0 <= j <= s.len(),
    ensures
        0 <= text_end(s, j) <= j,
        text_end(s, j) > 0 ==> !is_white(s[text_end(s, j) - 1]),
    decreases j,
{
    if j > 0 && is_white(s[j - 1]) {
        lemma_text_end_bound(s, j - 1);
    }
}

/// Whether `a` and `b` hold the same text.
pub fn same_text(a: &str, b: &str) -> (r: bool)
    ensures
        r == (a@ == b@),
{
    let n = a.unicode_len();
    if n != b.unicode_len() {
        return false;
    }
    let mut i: usize = 0;
    while i < n
        invariant
            n == a@.len(),
            n == b@.len(),
            i <= n,
            forall|j: int| 0 <= j < i ==> a@[j] == b@[j],
        decreases n - i,
    {
        if a.get_char(i) != b.get_char(i) {
            return false;
        }
        i = i + 1;
    }
    assert(a@ =~= b@);
    true
}

/// The command that the upper-cased keyword `keyword` and the argument
/// `arg` make: the keyword, trimmed, picks the command; `Search` and `Get`
/// carry the argument.
pub fn command_from(keyword: &str, arg: Option<String>) -> (c: Command)
    ensures
        command_matches(c, keyword@, match arg {
            Some(w) => Some(w@),
            None => None,
        }),
{
    let k = trim_text(keyword);
    let k = k.as_str();
    proof {
        reveal_strlit("EXIT");
        reveal_strlit("HELP");
        reveal_strlit("INFO");
        reveal_strlit("LIST");
        reveal_strlit("REFRESH");
        reveal_strlit("SEARCH");
        reveal_strlit("GET");
    }
    assert("EXIT"@ =~= kw_exit());
    assert("HELP"@ =~= kw_help());
    assert("INFO"@ =~= kw_info());
    assert("LIST"@ =~= kw_list());
    assert("REFRESH"@ =~= kw_refresh());
    assert("SEARCH"@ =~= kw_search());
    assert("GET"@ =~= kw_get());
    if same_text(k, "EXIT") {
        Command::Exit
    } else if same_text(k, "HELP") {
        Command::Help
    } else if same_text(k, "INFO") {
        Command::Info
    } else if same_text(k, "LIST") {
        Command::List
    } else if same_text(k, "REFRESH") {
        Command::Refresh
    } else if same_text(k, "SEARCH") {
        Command::Search(arg)
    } else if same_text(k, "GET") {
        Command::Get(arg)
    } else {
        Command::Invalid
    }
}

/// The command on the line `line`: nothing for a line of white space only;
/// otherwise what its first word, upper-cased, names, with its second word
/// as argument.
pub fn parse_command(line: &str) -> (c: Command)
    ensures
        first_word(line@) is None ==> c is Empty,
        first_word(line@) matches Some(w) ==> command_matches(
            c,
            upper_case(w),
            second_word(line@),
        ),
        first_word(line@) matches Some(w) ==> (all_ascii(w) ==> command_matches(
            c,
            w.map_values(|ch: char| ascii_upper(ch)),
            second_word(line@),
        )),
{
    let n = line.unicode_len();
    let a = skip_white_exec(line, n, 0);
    if a == n {
        return Command::Empty;
    }
    let b = word_end_exec(line, n, a);
    let first = line.substring_char(a, b);
    let keyword = to_upper(first);
    let c = skip_white_exec(line, n, b);
    let arg = if c < n {
        let d = word_end_exec(line, n, c);
        Some(String::from_str(line.substring_char(c, d)))
    } else {
        None
    };
    command_from(keyword.as_str(), arg)
}


/// The text `pull`.
pub open spec fn word_pull() -> Seq<char> {
    seq!['p', 'u', 'l', 'l']
}

/// The text `linear`.
pub open spec fn word_linear() -> Seq<char> {
    seq!['l', 'i', 'n', 'e', 'a', 'r']
}

/// Whether a peer started with the argument `arg` polls its downloads for
/// freshness (`pull`) rather than waiting for invalidation notices.
pub fn pull_mode(arg: &Option<String>) -> (b: bool)
    ensures
        b == (arg matches Some(a) && a@ == word_pull()),
{
    proof {
        reveal_strlit("pull");
    }
    assert("pull"@ =~= word_pull());
    match arg {
        Some(a) => same_text(a.as_str(), "pull"),
        None => false,
    }
}

/// Whether a super-peer started with the argument `arg` uses the linear
/// layout of neighbours rather than the all-to-all one.
pub fn linear_design(arg: &Option<String>) -> (b: bool)
    ensures
        b == (arg matches Some(a) && a@ == word_linear()),
{
    proof {
        reveal_strlit("linear");
    }
    assert("linear"@ =~= word_linear());
    match arg {
        Some(a) => same_text(a.as_str(), "linear"),
        None => false,
    }
}


} // verus!
