use vstd::prelude::*;
use vstd::string::StrSliceExecFns;
use vstd::string::StringExecFns;

verus! {

pub struct Parser;

/// Which way a command failed to parse (or to resolve its remote source).
#[derive(Clone, Copy, PartialEq, Eq, Structural, Debug)]
pub enum ParseErrorKind {
    /// A `<` operator stood last, with no token left to name the URL.
    MissingUrlOperand,
    /// A `<` turned up inside the stdin region opened by `|`.
    OperatorOrderViolation,
    /// Neither a URL nor any fenced code block supplied code to run.
    NoCodeBlockFound,
    /// The remote source named by `<` could not be fetched or decoded.
    RemoteFetchFailed,
}

pub struct ParserError {
    pub kind: ParseErrorKind,
    pub details: String,
}

impl ParserError {
    pub fn new(kind: ParseErrorKind, msg: &str) -> (e: ParserError)
        ensures
            e.kind == kind,
            e.details@ == msg@,
    {
        ParserError { kind, details: String::from_str(msg) }
    }

    /// The user-facing message carried by this error.
    pub fn message(&self) -> (m: &str)
        ensures
            m@ == self.details@,
    {
        self.details.as_str()
    }
}

/// The structured execution request extracted from one chat message.
///
/// Exactly one of `code` or `url` supplies the program once parsing (plus
/// the remote fetch, when `url` is set) has completed; empty strings stand
/// for absent parts throughout.
pub struct ParserResult {
    pub url: String,
    pub stdin: String,
    pub target: String,
    pub code: String,
    pub options: Vec<String>,
}

/// The whitespace that separates tokens on the command line.
pub open spec fn is_ws(c: char) -> bool {
    c == ' ' || c == '\t' || c == '\n' || c == '\r'
}

/// Length of the leading whitespace-free run of `s`.
pub open spec fn token_len(s: Seq<char>) -> int
    decreases s.len(),
{
    if s.len() == 0 || is_ws(s[0]) {
        0
    } else {
        1 + token_len(s.skip(1))
    }
}

pub proof fn lemma_token_len_bounds(s: Seq<char>)
    ensures
        0 <= token_len(s) <= s.len(),
        s.len() > 0 && !is_ws(s[0]) ==> token_len(s) >= 1,
    decreases s.len(),
{
    if s.len() > 0 && !is_ws(s[0]) {
        lemma_token_len_bounds(s.skip(1));
    }
}

/// The whitespace-delimited tokens of `s`, in order, each nonempty.
pub open spec fn tokens_of(s: Seq<char>) -> Seq<Seq<char>>
    decreases s.len(),
    via tokens_of_decreases
{
    if s.len() == 0 {
        Seq::empty()
    } else if is_ws(s[0]) {
        tokens_of(s.skip(1))
    } else {
        seq![s.take(token_len(s))] + tokens_of(s.skip(token_len(s)))
    }
}

#[via_fn]
proof fn tokens_of_decreases(s: Seq<char>) {
    lemma_token_len_bounds(s);
}

/// First index at or after `i` holding `c`; `s.len()` when there is none.
pub open spec fn find_char(s: Seq<char>, i: int, c: char) -> int
    decreases s.len() - i,
    when 0 <= i <= s.len()
{
    if i >= s.len() {
        s.len() as int
    } else if s[i] == c {
        i
    } else {
        find_char(s, i + 1, c)
    }
}

pub proof fn lemma_find_char_range(s: Seq<char>, i: int, c: char)
    requires
        0 <= i <= s.len(),
    ensures
        i <= find_char(s, i, c) <= s.len(),
        find_char(s, i, c) < s.len() ==> s[find_char(s, i, c)] == c,
    decreases s.len() - i,
{
    if i < s.len() && s[i] != c {
        lemma_find_char_range(s, i + 1, c);
    }
}

/// Whether a triple-backtick fence starts at index `i`.
pub open spec fn fence_at(s: Seq<char>, i: int) -> bool {
    &&& 0 <= i
    &&& i + 3 <= s.len()
    &&& s[i] == '`'
    &&& s[i + 1] == '`'
    &&& s[i + 2] == '`'
}

/// First index at or after `i` where a fence starts; `s.len()` when none does.
pub open spec fn find_fence(s: Seq<char>, i: int) -> int
    decreases s.len() - i,
    when 0 <= i <= s.len()
{
    if i + 3 > s.len() {
        s.len() as int
    } else if fence_at(s, i) {
        i
    } else {
        find_fence(s, i + 1)
    }
}

pub proof fn lemma_find_fence_range(s: Seq<char>, i: int)
    requires
        0 <= i <= s.len(),
    ensures
        i <= find_fence(s, i) <= s.len(),
        find_fence(s, i) < s.len() ==> fence_at(s, find_fence(s, i)),
    decreases s.len() - i,
{
    if i + 3 <= s.len() && !fence_at(s, i) {
        lemma_find_fence_range(s, i + 1);
    }
}

/// Contents of one fenced block: the captured text, with the newline that
/// usually precedes the closing fence stripped.
pub open spec fn block_content(c: Seq<char>) -> Seq<char> {
    if c.len() > 0 && c.last() == '\n' {
        c.drop_last()
    } else {
        c
    }
}

/// Every fenced code block of `s` at or after `i`, in order: a non-greedy
/// scan that opens at a fence, skips the language tag up to the first
/// newline, and captures up to the next fence.
pub open spec fn blocks_from(s: Seq<char>, i: int) -> Seq<Seq<char>>
    decreases s.len() - i,
    when 0 <= i <= s.len()
    via blocks_from_decreases
{
    let f = find_fence(s, i);
    if f == s.len() {
        Seq::empty()
    } else {
        let nl = find_char(s, f + 3, '\n');
        if nl == s.len() {
            Seq::empty()
        } else {
            let close = find_fence(s, nl + 1);
            if close == s.len() {
                Seq::empty()
            } else {
                seq![block_content(s.subrange(nl + 1, close))] + blocks_from(s, close + 3)
            }
        }
    }
}

#[via_fn]
proof fn blocks_from_decreases(s: Seq<char>, i: int) {
    lemma_find_fence_range(s, i);
    let f = find_fence(s, i);
    if f < s.len() {
        lemma_find_char_range(s, f + 3, '\n');
        let nl = find_char(s, f + 3, '\n');
        if nl < s.len() {
            lemma_find_fence_range(s, nl + 1);
        }
    }
}

pub open spec fn blocks_of(s: Seq<char>) -> Seq<Seq<char>> {
    blocks_from(s, 0)
}

/// Where the operator scan stands while walking the tokens.
#[derive(Clone, Copy, PartialEq, Eq, Structural, Debug)]
pub enum ScanMode {
    /// Collecting plain option tokens.
    Options,
    /// A `<` was just read; the next token must be the URL.
    AwaitUrl,
    /// A `|` was read; the remaining tokens are stdin text.
    Stdin,
}

/// Ghost state of the operator scan over the command-line tokens.
pub struct ScanState {
    pub url: Seq<char>,
    pub stdin: Seq<char>,
    pub options: Seq<Seq<char>>,
    pub mode: ScanMode,
    pub error: Option<ParseErrorKind>,
}

pub open spec fn scan_init() -> ScanState {
    ScanState {
        url: Seq::empty(),
        stdin: Seq::empty(),
        options: Seq::empty(),
        mode: ScanMode::Options,
        error: None,
    }
}

/// One token fed to the scan: `<` awaits a URL, `|` opens the stdin region
/// (inside which a further `<` is an ordering violation), anything else is
/// an option, a URL operand, or a stdin word, depending on the mode.
pub open spec fn scan_step(st: ScanState, t: Seq<char>) -> ScanState {
    if st.error is Some {
        st
    } else {
        match st.mode {
            ScanMode::Options => if t == seq!['<'] {
                ScanState { mode: ScanMode::AwaitUrl, ..st }
            } else if t == seq!['|'] {
                ScanState { mode: ScanMode::Stdin, ..st }
            } else {
                ScanState { options: st.options.push(t), ..st }
            },
            ScanMode::AwaitUrl => ScanState { url: t, mode: ScanMode::Options, ..st },
            ScanMode::Stdin => if t == seq!['<'] {
                ScanState { error: Some(ParseErrorKind::OperatorOrderViolation), ..st }
            } else {
                ScanState {
                    stdin: if st.stdin.len() == 0 {
                        t
                    } else {
                        st.stdin + seq![' '] + t
                    },
                    ..st
                }
            },
        }
    }
}

pub open spec fn scan_tokens(ts: Seq<Seq<char>>) -> ScanState
    decreases ts.len(),
{
    if ts.len() == 0 {
        scan_init()
    } else {
        scan_step(scan_tokens(ts.drop_last()), ts.last())
    }
}

/// The error the scan settles on, if any: an explicit violation wins, and a
/// scan left waiting for a URL operand failed too.
pub open spec fn scan_verdict(st: ScanState) -> Option<ParseErrorKind> {
    if st.error is Some {
        st.error
    } else if st.mode is AwaitUrl {
        Some(ParseErrorKind::MissingUrlOperand)
    } else {
        None
    }
}

/// Ghost model of a fully parsed command.
pub struct ResultModel {
    pub url: Seq<char>,
    pub stdin: Seq<char>,
    pub target: Seq<char>,
    pub code: Seq<char>,
    pub options: Seq<Seq<char>>,
}

/// The command-line region: everything before the first backtick.
pub open spec fn cmdline_of(s: Seq<char>) -> Seq<char> {
    s.take(find_char(s, 0, '`'))
}

/// The tokens after the target token, fed to the operator scan.
pub open spec fn rest_tokens(s: Seq<char>) -> Seq<Seq<char>> {
    let toks = tokens_of(cmdline_of(s));
    if toks.len() == 0 {
        Seq::empty()
    } else {
        toks.skip(1)
    }
}

/// What `Parser::get_components` returns on raw message text `s`, with the
/// remote fetch still outstanding: when a URL was given, the code blocks
/// are skipped entirely and `code` stays empty until the fetched body is
/// applied.
pub open spec fn parse_outcome(s: Seq<char>) -> Result<ResultModel, ParseErrorKind> {
    let toks = tokens_of(cmdline_of(s));
    let target = if toks.len() == 0 {
        Seq::<char>::empty()
    } else {
        toks[0]
    };
    let st = scan_tokens(rest_tokens(s));
    if scan_verdict(st) is Some {
        Err(scan_verdict(st)->Some_0)
    } else if st.url.len() > 0 {
        Ok(
            ResultModel {
                url: st.url,
                stdin: st.stdin,
                target,
                code: Seq::empty(),
                options: st.options,
            },
        )
    } else {
        let bs = blocks_of(s);
        if bs.len() == 0 {
            Err(ParseErrorKind::NoCodeBlockFound)
        } else if bs.len() == 1 {
            Ok(
                ResultModel {
                    url: Seq::empty(),
                    stdin: st.stdin,
                    target,
                    code: bs[0],
                    options: st.options,
                },
            )
        } else {
            Ok(
                ResultModel {
                    url: Seq::empty(),
                    stdin: bs[0],
                    target,
                    code: bs[1],
                    options: st.options,
                },
            )
        }
    }
}

/// Views of a vector of owned strings.
pub open spec fn views_of(ts: Seq<String>) -> Seq<Seq<char>> {
    ts.map_values(|t: String| t@)
}

/// Whether an executable result realizes a ghost model.
pub open spec fn result_matches(res: ParserResult, m: ResultModel) -> bool {
    &&& res.url@ == m.url
    &&& res.stdin@ == m.stdin
    &&& res.target@ == m.target
    &&& res.code@ == m.code
    &&& views_of(res.options@) == m.options
}

/// Collects the characters of `s` into a vector.
fn chars_of(s: &str) -> (v: Vec<char>)
    ensures
        v@ == s@,
{
    let n = s.unicode_len();
    let mut v: Vec<char> = Vec::new();
    let mut i: usize = 0;
    while i < n
        invariant
            i <= n,
            n == s@.len(),
            v@ == s@.take(i as int),
        decreases n - i,
    {
        v.push(s.get_char(i));
        proof {
            assert(s@.take(i + 1) =~= s@.take(i as int).push(s@[i as int]));
        }
        i = i + 1;
    }
    proof {
        assert(s@.take(n as int) =~= s@);
    }
    v
}

fn ws_char(c: char) -> (b: bool)
    ensures
        b == is_ws(c),
{
    c == ' ' || c == '\t' || c == '\n' || c == '\r'
}

/// First index at or after `from` holding `c`, or `v.len()` when none does.
fn find_char_from(v: &Vec<char>, from: usize, c: char) -> (r: usize)
    requires
        from <= v@.len(),
    ensures
        r == find_char(v@, from as int, c),
        from <= r <= v@.len(),
{
    let n = v.len();
    let mut i: usize = from;
    while i < n
        invariant
            from <= i <= n,
            n == v@.len(),
            find_char(v@, from as int, c) == find_char(v@, i as int, c),
        decreases n - i,
    {
        if v[i] == c {
            return i;
        }
        i = i + 1;
    }
    i
}

/// First index at or after `from` where a fence starts, or `v.len()`.
fn find_fence_from(v: &Vec<char>, from: usize) -> (r: usize)
    requires
        from <= v@.len(),
    ensures
        r == find_fence(v@, from as int),
        from <= r <= v@.len(),
{
    let n = v.len();
    let mut i: usize = from;
    while n - i >= 3
        invariant
            from <= i <= n,
            n == v@.len(),
            find_fence(v@, from as int) == find_fence(v@, i as int),
        decreases n - i,
    {
        if v[i] == '`' && v[i + 1] == '`' && v[i + 2] == '`' {
            return i;
        }
        i = i + 1;
    }
    proof {
        lemma_find_fence_range(v@, i as int);
    }
    n
}

/// A token occupies `[start, end)` of the scanned text.
struct TokenRange {
    start: usize,
    end: usize,
}

spec fn ranges_wf(rs: Seq<TokenRange>, end: int) -> bool {
    forall|k: int| 0 <= k < rs.len() ==> 0 <= #[trigger] rs[k].start < rs[k].end <= end
}

spec fn range_views(rs: Seq<TokenRange>, s: Seq<char>) -> Seq<Seq<char>> {
    rs.map_values(|r: TokenRange| s.subrange(r.start as int, r.end as int))
}

/// A maximal whitespace-free run is exactly one token of the suffix it
/// starts, and the tokens of the text are that token plus the rest.
proof fn lemma_token_extent(t: Seq<char>, k: int)
    requires
        0 < k <= t.len(),
        forall|m: int| 0 <= m < k ==> !is_ws(#[trigger] t[m]),
        k == t.len() || is_ws(t[k]),
    ensures
        token_len(t) == k,
        tokens_of(t) == seq![t.take(k)] + tokens_of(t.skip(k)),
    decreases k,
{
    assert(!is_ws(t[0]));
    if k == 1 {
        assert(t.skip(1).len() == 0 || is_ws(t.skip(1)[0]));
        assert(token_len(t.skip(1)) == 0);
        assert(token_len(t) == 1);
    } else {
        assert(forall|m: int| 0 <= m < k - 1 ==> t.skip(1)[m] == #[trigger] t[m + 1]);
        lemma_token_extent(t.skip(1), k - 1);
        assert(token_len(t) == 1 + token_len(t.skip(1)));
        assert(token_len(t) == k);
    }
    assert(tokens_of(t) == seq![t.take(token_len(t))] + tokens_of(t.skip(token_len(t))));
}

/// The whitespace-delimited tokens of `v[..end)`, as index ranges.
fn token_ranges(v: &Vec<char>, end: usize) -> (rs: Vec<TokenRange>)
    requires
        end <= v@.len(),
    ensures
        ranges_wf(rs@, end as int),
        range_views(rs@, v@) == tokens_of(v@.take(end as int)),
{
    let ghost prefix = v@.take(end as int);
    let mut rs: Vec<TokenRange> = Vec::new();
    let mut i: usize = 0;
    proof {
        assert(prefix.skip(0) =~= prefix);
        assert(range_views(rs@, v@) =~= Seq::<Seq<char>>::empty());
        assert(tokens_of(prefix) =~= range_views(rs@, v@) + tokens_of(prefix.skip(0)));
    }
    while i < end
        invariant
            i <= end,
            end <= v@.len(),
            prefix == v@.take(end as int),
            ranges_wf(rs@, end as int),
            tokens_of(prefix) == range_views(rs@, v@) + tokens_of(prefix.skip(i as int)),
        decreases end - i,
    {
        if ws_char(v[i]) {
            proof {
                assert(prefix.skip(i as int).skip(1) =~= prefix.skip(i + 1));
            }
            i = i + 1;
        } else {
            let start = i;
            i = i + 1;
            while i < end && !ws_char(v[i])
                invariant
                    start < i <= end,
                    end <= v@.len(),
                    prefix == v@.take(end as int),
                    forall|m: int| start <= m < i ==> !is_ws(#[trigger] v@[m]),
                decreases end - i,
            {
                i = i + 1;
            }
            proof {
                let t = prefix.skip(start as int);
                lemma_token_extent(t, i - start);
                assert(t.take(i - start) =~= v@.subrange(start as int, i as int));
                assert(t.skip(i - start) =~= prefix.skip(i as int));
                assert(range_views(rs@.push(TokenRange { start, end: i }), v@) =~= range_views(
                    rs@,
                    v@,
                ).push(v@.subrange(start as int, i as int)));
                assert(tokens_of(prefix) =~= range_views(rs@.push(TokenRange { start, end: i }), v@)
                    + tokens_of(prefix.skip(i as int)));
            }
            rs.push(TokenRange { start, end: i });
        }
    }
    proof {
        assert(prefix.skip(end as int) =~= Seq::<char>::empty());
        assert(tokens_of(prefix) =~= range_views(rs@, v@));
    }
    rs
}

/// Once the scan has erred, no later token changes its state.
proof fn lemma_scan_error_sticky(ts: Seq<Seq<char>>, m: int)
    requires
        0 <= m <= ts.len(),
        scan_tokens(ts.take(m)).error is Some,
    ensures
        scan_tokens(ts) == scan_tokens(ts.take(m)),
    decreases ts.len() - m,
{
    if m < ts.len() {
        assert(ts.take(m + 1).drop_last() =~= ts.take(m));
        assert(ts.take(m + 1).last() == ts[m]);
        lemma_scan_error_sticky(ts, m + 1);
    } else {
        assert(ts.take(m) =~= ts);
    }
}

/// What the operator scan extracted, when it extracted anything.
struct ScanOut {
    url: String,
    stdin: String,
    options: Vec<String>,
}

/// Runs the operator scan over the tokens `rs[start..]`.
fn scan_ranges(input: &str, v: &Vec<char>, rs: &Vec<TokenRange>, start: usize) -> (out: Result<
    ScanOut,
    ParserError,
>)
    requires
        v@ == input@,
        ranges_wf(rs@, v@.len() as int),
        start <= rs@.len(),
    ensures
        ({
            let st = scan_tokens(range_views(rs@, v@).skip(start as int));
            match out {
                Ok(so) => scan_verdict(st) is None && so.url@ == st.url && so.stdin@ == st.stdin
                    && views_of(so.options@) == st.options,
                Err(e) => scan_verdict(st) == Some(e.kind),
            }
        }),
{
    let ghost ts = range_views(rs@, v@).skip(start as int);
    let n = rs.len();
    let mut url = String::new();
    let mut stdin = String::new();
    let mut options: Vec<String> = Vec::new();
    let mut mode = ScanMode::Options;
    let mut k: usize = start;
    proof {
        assert(ts.take(0) =~= Seq::<Seq<char>>::empty());
        assert(views_of(options@) =~= Seq::<Seq<char>>::empty());
    }
    while k < n
        invariant
            start <= k <= n,
            n == rs@.len(),
            v@ == input@,
            ranges_wf(rs@, v@.len() as int),
            ts == range_views(rs@, v@).skip(start as int),
            ({
                let st = scan_tokens(ts.take(k - start));
                &&& st.error is None
                &&& mode == st.mode
                &&& url@ == st.url
                &&& stdin@ == st.stdin
                &&& views_of(options@) == st.options
            }),
        decreases n - k,
    {
        let ghost st = scan_tokens(ts.take(k - start));
        let r_start = rs[k].start;
        let r_end = rs[k].end;
        let ghost tok = v@.subrange(r_start as int, r_end as int);
        proof {
            assert(ts[k - start] == tok);
            assert(ts.take(k - start + 1).drop_last() =~= ts.take(k - start));
            assert(ts.take(k - start + 1).last() == tok);
        }
        let single = r_end - r_start == 1;
        let is_lt = single && v[r_start] == '<';
        let is_pipe = single && v[r_start] == '|';
        proof {
            assert(seq!['<'].len() == 1 && seq!['<'][0] == '<');
            assert(seq!['|'].len() == 1 && seq!['|'][0] == '|');
            assert(tok.len() == r_end - r_start);
            assert(tok[0] == v@[r_start as int]);
            if is_lt {
                assert(tok =~= seq!['<']);
            } else {
                assert(tok != seq!['<']);
            }
            if is_pipe {
                assert(tok =~= seq!['|']);
            } else {
                assert(tok != seq!['|']);
            }
        }
        match mode {
            ScanMode::Options => {
                if is_lt {
                    mode = ScanMode::AwaitUrl;
                } else if is_pipe {
                    mode = ScanMode::Stdin;
                } else {
                    let t = String::from_str(input.substring_char(r_start, r_end));
                    proof {
                        assert(views_of(options@.push(t)) =~= views_of(options@).push(t@));
                    }
                    options.push(t);
                }
            },
            ScanMode::AwaitUrl => {
                url = String::from_str(input.substring_char(r_start, r_end));
                mode = ScanMode::Options;
            },
            ScanMode::Stdin => {
                if is_lt {
                    proof {
                        lemma_scan_error_sticky(ts, k - start + 1);
                    }
                    return Err(
                        ParserError::new(
                            ParseErrorKind::OperatorOrderViolation,
                            "the stdin operator must come last; a url operator may not follow it",
                        ),
                    );
                }
                let t = input.substring_char(r_start, r_end);
                if stdin.as_str().is_empty() {
                    stdin = String::from_str(t);
                } else {
                    proof {
                        reveal_strlit(" ");
                    }
                    stdin.append(" ");
                    stdin.append(t);
                }
            },
        }
        k = k + 1;
    }
    proof {
        assert(ts.take(n - start) =~= ts);
    }
    if let ScanMode::AwaitUrl = mode {
        return Err(
            ParserError::new(
                ParseErrorKind::MissingUrlOperand,
                "the url operator requires a url token to follow it",
            ),
        );
    }
    Ok(ScanOut { url, stdin, options })
}

impl Parser {
    /// Locates the fenced code blocks of `haystack` and fills `result` from
    /// them: one block becomes the code; with two or more, the first becomes
    /// stdin and the second the code; none at all is an error that leaves
    /// `result` untouched.
    pub fn find_code_block(result: &mut ParserResult, haystack: &str) -> (r: Result<
        (),
        ParserError,
    >)
        ensures
            ({
                let bs = blocks_of(haystack@);
                &&& bs.len() == 0 ==> (r matches Err(e) && e.kind
                    == ParseErrorKind::NoCodeBlockFound && *final(result) == *old(result))
                &&& bs.len() == 1 ==> r is Ok && final(result).code@ == bs[0]
                    && final(result).stdin@ == old(result).stdin@
                &&& bs.len() >= 2 ==> r is Ok && final(result).stdin@ == bs[0]
                    && final(result).code@ == bs[1]
                &&& final(result).url == old(result).url
                &&& final(result).target == old(result).target
                &&& final(result).options == old(result).options
            }),
    {
        let v = chars_of(haystack);
        let n = v.len();
        let mut caps: Vec<String> = Vec::new();
        let mut i: usize = 0;
        proof {
            assert(views_of(caps@) =~= Seq::<Seq<char>>::empty());
            assert(blocks_of(haystack@) =~= views_of(caps@) + blocks_from(haystack@, 0));
        }
        while caps.len() < 2
            invariant
                i <= n,
                n == v@.len(),
                v@ == haystack@,
                caps@.len() <= 2,
                blocks_of(haystack@) == views_of(caps@) + blocks_from(haystack@, i as int),
            ensures
                caps@.len() <= 2,
                blocks_of(haystack@) == views_of(caps@) + blocks_from(haystack@, i as int),
                caps@.len() < 2 ==> blocks_from(haystack@, i as int) == Seq::<Seq<char>>::empty(),
            decreases n - i,
        {
            let f = find_fence_from(&v, i);
            proof {
                lemma_find_fence_range(v@, i as int);
            }
            if f == n {
                break ;
            }
            let nl = find_char_from(&v, f + 3, '\n');
            proof {
                lemma_find_char_range(v@, f + 3, '\n');
            }
            if nl == n {
                break ;
            }
            let close = find_fence_from(&v, nl + 1);
            proof {
                lemma_find_fence_range(v@, nl + 1);
            }
            if close == n {
                break ;
            }
            let cto = if close > nl + 1 && v[close - 1] == '\n' {
                close - 1
            } else {
                close
            };
            let cap = String::from_str(haystack.substring_char(nl + 1, cto));
            proof {
                let raw = haystack@.subrange(nl + 1, close as int);
                if close > nl + 1 && v@[close - 1] == '\n' {
                    assert(raw.len() > 0 && raw.last() == '\n');
                    assert(cap@ =~= raw.drop_last());
                } else {
                    assert(cap@ =~= block_content(raw));
                }
                assert(blocks_from(haystack@, i as int) == seq![block_content(raw)] + blocks_from(
                    haystack@,
                    close + 3,
                ));
                assert(views_of(caps@.push(cap)) =~= views_of(caps@).push(cap@));
                assert(views_of(caps@.push(cap)) + blocks_from(haystack@, close + 3) =~= views_of(
                    caps@,
                ) + blocks_from(haystack@, i as int));
            }
            caps.push(cap);
            i = close + 3;
        }
        proof {
            assert(blocks_of(haystack@).len() == caps@.len() + blocks_from(
                haystack@,
                i as int,
            ).len());
        }
        if caps.len() == 0 {
            proof {
                assert(blocks_of(haystack@) =~= Seq::<Seq<char>>::empty());
            }
            return Err(
                ParserError::new(
                    ParseErrorKind::NoCodeBlockFound,
                    "a code block containing the code to run must be attached to the message",
                ),
            );
        }
        if caps.len() == 1 {
            proof {
                assert(blocks_of(haystack@)[0] == views_of(caps@)[0]);
            }
            let cap0 = caps.pop().unwrap();
            result.code = cap0;
        } else {
            proof {
                assert(blocks_of(haystack@)[0] == views_of(caps@)[0]);
                assert(blocks_of(haystack@)[1] == views_of(caps@)[1]);
            }
            let cap1 = caps.pop().unwrap();
            let cap0 = caps.pop().unwrap();
            result.code = cap1;
            result.stdin = cap0;
        }
        Ok(())
    }

    /// Parses one raw chat message into an execution request: the first
    /// token names the target language or compiler, `<` takes a remote
    /// source URL, `|` opens the stdin region, every other token before the
    /// first backtick is an option, and the fenced code blocks supply the
    /// code (and possibly stdin) whenever no URL was given.
    pub fn get_components(input: &str) -> (r: Result<ParserResult, ParserError>)
        ensures
            match r {
                Ok(res) => parse_outcome(input@) matches Ok(m) && result_matches(res, m),
                Err(e) => parse_outcome(input@) matches Err(k) && e.kind == k,
            },
    {
        let v = chars_of(input);
        let fence0 = find_char_from(&v, 0, '`');
        let rs = token_ranges(&v, fence0);
        proof {
            assert(range_views(rs@, v@) == tokens_of(cmdline_of(input@)));
        }
        let target = if rs.len() == 0 {
            String::new()
        } else {
            let r0_start = rs[0].start;
            let r0_end = rs[0].end;
            String::from_str(input.substring_char(r0_start, r0_end))
        };
        let scan_start: usize = if rs.len() == 0 {
            0
        } else {
            1
        };
        proof {
            if rs@.len() == 0 {
                assert(range_views(rs@, v@).skip(0) =~= rest_tokens(input@));
            } else {
                assert(range_views(rs@, v@).skip(1) =~= rest_tokens(input@));
            }
        }
        let ghost toks = tokens_of(cmdline_of(input@));
        let ghost st = scan_tokens(rest_tokens(input@));
        proof {
            if rs@.len() == 0 {
                assert(target@ =~= Seq::<char>::empty());
            } else {
                assert(target@ == toks[0]);
            }
        }
        let so = match scan_ranges(input, &v, &rs, scan_start) {
            Ok(so) => so,
            Err(e) => {
                return Err(e);
            },
        };
        proof {
            assert(so.url@ == st.url && so.stdin@ == st.stdin && views_of(so.options@)
                == st.options);
        }
        let mut result = ParserResult {
            url: so.url,
            stdin: so.stdin,
            target,
            code: String::new(),
            options: so.options,
        };
        if !result.url.as_str().is_empty() {
            return Ok(result);
        }
        proof {
            assert(st.url =~= Seq::<char>::empty());
        }
        match Parser::find_code_block(&mut result, input) {
            Ok(()) => {
                proof {
                    assert(result.url@ =~= Seq::<char>::empty());
                }
                Ok(result)
            },
            Err(e) => Err(e),
        }
    }

    /// Applies the body fetched from the remote source URL: it becomes the
    /// code to execute, everything else staying as parsed.
    pub fn apply_remote_body(result: &mut ParserResult, body: &str)
        requires
            old(result).url@.len() > 0,
        ensures
            final(result).code@ == body@,
            final(result).url == old(result).url,
            final(result).stdin == old(result).stdin,
            final(result).target == old(result).target,
            final(result).options == old(result).options,
    {
        result.code = String::from_str(body);
    }
}

/// Tokens containing no operator leave the scan collecting options only.
pub proof fn lemma_scan_plain(ts: Seq<Seq<char>>)
    requires
        forall|k: int| 0 <= k < ts.len() ==> #[trigger] ts[k] != seq!['<'] && ts[k] != seq!['|'],
    ensures
        scan_tokens(ts).error is None,
        scan_tokens(ts).mode is Options,
        scan_tokens(ts).url == Seq::<char>::empty(),
        scan_tokens(ts).stdin == Seq::<char>::empty(),
        scan_tokens(ts).options == ts,
    decreases ts.len(),
{
    if ts.len() == 0 {
        assert(scan_tokens(ts).options =~= ts);
    } else {
        lemma_scan_plain(ts.drop_last());
        assert(scan_tokens(ts) == scan_step(scan_tokens(ts.drop_last()), ts.last()));
        assert(scan_tokens(ts).options =~= ts);
    }
}

/// While the scan sits in the stdin region and meets no `<`, it stays
/// there without erring.
proof fn lemma_stdin_until(ts: Seq<Seq<char>>, m: int, j: int)
    requires
        0 <= m <= j <= ts.len(),
        scan_tokens(ts.take(m)).mode is Stdin,
        scan_tokens(ts.take(m)).error is None,
        forall|k: int| m <= k < j ==> #[trigger] ts[k] != seq!['<'],
    ensures
        scan_tokens(ts.take(j)).mode is Stdin,
        scan_tokens(ts.take(j)).error is None,
    decreases j - m,
{
    if m < j {
        assert(ts.take(m + 1).drop_last() =~= ts.take(m));
        assert(ts.take(m + 1).last() == ts[m]);
        lemma_stdin_until(ts, m + 1, j);
    }
}

/// A message whose text holds exactly one fenced code block, and whose
/// command line uses no operator, parses to that block as the code, with
/// empty stdin and no remote source URL.
pub proof fn lemma_parse_single_block_no_operators(s: Seq<char>)
    requires
        blocks_of(s).len() == 1,
        forall|k: int|
            0 <= k < rest_tokens(s).len() ==> #[trigger] rest_tokens(s)[k] != seq!['<']
                && rest_tokens(s)[k] != seq!['|'],
    ensures
        parse_outcome(s) matches Ok(m) && m.code == blocks_of(s)[0] && m.stdin == Seq::<
            char,
        >::empty() && m.url == Seq::<char>::empty(),
{
    lemma_scan_plain(rest_tokens(s));
}

/// A message with two or more fenced code blocks, whose command line scan
/// succeeds without naming a URL, parses to the first block as stdin and
/// the second as the code.
pub proof fn lemma_parse_two_blocks(s: Seq<char>)
    requires
        blocks_of(s).len() >= 2,
        scan_verdict(scan_tokens(rest_tokens(s))) is None,
        scan_tokens(rest_tokens(s)).url == Seq::<char>::empty(),
    ensures
        parse_outcome(s) matches Ok(m) && m.stdin == blocks_of(s)[0] && m.code == blocks_of(s)[1],
{
}

/// A `<` operator standing last, with no token following to name the URL,
/// fails the parse with the missing-operand error.
pub proof fn lemma_trailing_url_operator_errs(s: Seq<char>)
    requires
        rest_tokens(s).len() > 0,
        rest_tokens(s).last() == seq!['<'],
        forall|k: int|
            0 <= k < rest_tokens(s).len() - 1 ==> #[trigger] rest_tokens(s)[k] != seq!['<']
                && rest_tokens(s)[k] != seq!['|'],
    ensures
        parse_outcome(s) == Err::<ResultModel, ParseErrorKind>(ParseErrorKind::MissingUrlOperand),
{
    let ts = rest_tokens(s);
    assert(forall|k: int|
        0 <= k < ts.drop_last().len() ==> #[trigger] ts.drop_last()[k] != seq!['<']
            && ts.drop_last()[k] != seq!['|']);
    lemma_scan_plain(ts.drop_last());
    assert(scan_tokens(ts) == scan_step(scan_tokens(ts.drop_last()), ts.last()));
}

/// A `|` operator followed anywhere later by a `<` fails the parse with
/// the operator-order violation: the stdin region must come last.
pub proof fn lemma_pipe_then_url_operator_errs(s: Seq<char>, i: int, j: int)
    requires
        0 <= i < j < rest_tokens(s).len(),
        rest_tokens(s)[i] == seq!['|'],
        rest_tokens(s)[j] == seq!['<'],
        forall|k: int|
            0 <= k < i ==> #[trigger] rest_tokens(s)[k] != seq!['<'] && rest_tokens(s)[k]
                != seq!['|'],
        forall|k: int| i < k < j ==> #[trigger] rest_tokens(s)[k] != seq!['<'],
    ensures
        parse_outcome(s) == Err::<ResultModel, ParseErrorKind>(
            ParseErrorKind::OperatorOrderViolation,
        ),
{
    let ts = rest_tokens(s);
    assert(forall|k: int|
        0 <= k < ts.take(i).len() ==> #[trigger] ts.take(i)[k] != seq!['<'] && ts.take(i)[k]
            != seq!['|']);
    lemma_scan_plain(ts.take(i));
    assert(seq!['<'][0] == '<' && seq!['|'][0] == '|');
    assert(seq!['|'] != seq!['<']);
    assert(ts.take(i + 1).drop_last() =~= ts.take(i));
    assert(ts.take(i + 1).last() == ts[i]);
    assert(scan_tokens(ts.take(i + 1)).mode is Stdin);
    lemma_stdin_until(ts, i + 1, j);
    assert(ts.take(j + 1).drop_last() =~= ts.take(j));
    assert(ts.take(j + 1).last() == ts[j]);
    assert(scan_tokens(ts.take(j + 1)).error == Some(ParseErrorKind::OperatorOrderViolation));
    lemma_scan_error_sticky(ts, j + 1);
}

/// At most one source supplies the code: while a remote source URL is
/// set, the parsed code stays empty — the fetched body alone will fill
/// it — and code from a fenced block comes only with an empty URL.
pub proof fn lemma_code_source_exclusive(s: Seq<char>)
    ensures
        parse_outcome(s) matches Ok(m) ==> (m.url.len() > 0 ==> m.code.len() == 0),
{
}

/// A well-formed token: nonempty, with no whitespace inside.
pub open spec fn token_wf(t: Seq<char>) -> bool {
    t.len() > 0 && forall|m: int| 0 <= m < t.len() ==> !is_ws(#[trigger] t[m])
}

proof fn lemma_token_run(s: Seq<char>)
    ensures
        forall|m: int| 0 <= m < token_len(s) ==> !is_ws(#[trigger] s[m]),
    decreases s.len(),
{
    lemma_token_len_bounds(s);
    if s.len() > 0 && !is_ws(s[0]) {
        lemma_token_run(s.skip(1));
        lemma_token_len_bounds(s.skip(1));
        assert forall|m: int| 0 <= m < token_len(s) implies !is_ws(s[m]) by {
            if m > 0 {
                assert(s.skip(1)[m - 1] == s[m]);
            }
        }
    }
}

/// Every token the tokenizer yields is nonempty and whitespace-free.
pub proof fn lemma_tokens_wf(s: Seq<char>)
    ensures
        forall|k: int| 0 <= k < tokens_of(s).len() ==> token_wf(#[trigger] tokens_of(s)[k]),
    decreases s.len(),
{
    lemma_token_len_bounds(s);
    if s.len() == 0 {
    } else if is_ws(s[0]) {
        lemma_tokens_wf(s.skip(1));
        assert forall|k: int| 0 <= k < tokens_of(s).len() implies token_wf(tokens_of(s)[k]) by {
            assert(tokens_of(s)[k] == tokens_of(s.skip(1))[k]);
        }
    } else {
        lemma_token_run(s);
        lemma_tokens_wf(s.skip(token_len(s)));
        assert(token_wf(s.take(token_len(s))));
        assert forall|k: int| 0 <= k < tokens_of(s).len() implies token_wf(tokens_of(s)[k]) by {
            if k == 0 {
                assert(tokens_of(s)[k] == s.take(token_len(s)));
            } else {
                assert(tokens_of(s)[k] == tokens_of(s.skip(token_len(s)))[k - 1]);
            }
        }
    }
}

/// Every option the scan collects is one of the tokens it was fed.
pub proof fn lemma_scan_options_from_tokens(ts: Seq<Seq<char>>)
    ensures
        forall|j: int|
            0 <= j < scan_tokens(ts).options.len() ==> exists|k: int|
                0 <= k < ts.len() && #[trigger] scan_tokens(ts).options[j] == ts[k],
    decreases ts.len(),
{
    if ts.len() > 0 {
        lemma_scan_options_from_tokens(ts.drop_last());
        let st = scan_tokens(ts.drop_last());
        assert forall|j: int| 0 <= j < scan_tokens(ts).options.len() implies exists|k: int|
            0 <= k < ts.len() && #[trigger] scan_tokens(ts).options[j] == ts[k] by {
            if j < st.options.len() {
                let k0 = choose|k0: int| 0 <= k0 < ts.drop_last().len() && st.options[j] == ts.drop_last()[k0];
                assert(ts.drop_last()[k0] == ts[k0]);
                assert(scan_tokens(ts).options[j] == ts[k0]);
            } else {
                assert(scan_tokens(ts).options[j] == ts[ts.len() - 1]);
            }
        }
    }
}

/// Every token after the target that a successful parse collects as an
/// option is well formed: nonempty and free of whitespace.
pub proof fn lemma_parsed_options_wf(s: Seq<char>)
    ensures
        parse_outcome(s) matches Ok(m) ==> forall|j: int|
            0 <= j < m.options.len() ==> token_wf(#[trigger] m.options[j]),
{
    if parse_outcome(s) is Ok {
        let toks = tokens_of(cmdline_of(s));
        let ts = rest_tokens(s);
        lemma_tokens_wf(cmdline_of(s));
        lemma_scan_options_from_tokens(ts);
        let m = parse_outcome(s)->Ok_0;
        assert forall|j: int| 0 <= j < m.options.len() implies token_wf(m.options[j]) by {
            let k = choose|k: int| 0 <= k < ts.len() && m.options[j] == ts[k];
            if toks.len() > 0 {
                assert(ts[k] == toks[k + 1]);
            }
        }
    }
}

/// A message with no fenced code block, whose command line scan succeeds
/// without naming a URL, fails the parse: nothing supplies the code.
pub proof fn lemma_no_block_no_url_errs(s: Seq<char>)
    requires
        blocks_of(s).len() == 0,
        scan_verdict(scan_tokens(rest_tokens(s))) is None,
        scan_tokens(rest_tokens(s)).url == Seq::<char>::empty(),
    ensures
        parse_outcome(s) == Err::<ResultModel, ParseErrorKind>(ParseErrorKind::NoCodeBlockFound),
{
}

} // verus!
