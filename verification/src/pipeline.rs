use vstd::prelude::*;
use vstd::string::StringExecFns;
use crate::parser::ParserResult;
use crate::parser::views_of;
use crate::parser::find_char;
use crate::parser::lemma_find_char_range;

verus! {

#[verifier::external_type_specification]
pub struct ExSourceFile(wandbox::SourceFile);

#[verifier::external_type_specification]
pub struct ExCompilationRequest(wandbox::CompilationRequest);

#[verifier::external_type_specification]
#[verifier::external_body]
pub struct ExCatalog(wandbox::Catalog);

#[verifier::external_type_specification]
#[verifier::external_body]
pub struct ExWandbox(wandbox::Wandbox);

/// The compilers a fetched backend catalog holds: for each, its unique
/// compiler name and the display name of its language, in catalog order.
pub uninterp spec fn catalog_entries(c: wandbox::Catalog) -> Seq<(Seq<char>, Seq<char>)>;

/// ASCII-case-insensitive character equality.
pub open spec fn ci_eq_char(a: char, b: char) -> bool {
    ||| a == b
    ||| ('A' <= a <= 'Z' && b as int == a as int + 32)
    ||| ('a' <= a <= 'z' && b as int == a as int - 32)
}

/// ASCII-case-insensitive string equality.
pub open spec fn ci_eq(a: Seq<char>, b: Seq<char>) -> bool {
    a.len() == b.len() && forall|i: int| 0 <= i < a.len() ==> ci_eq_char(a[i], b[i])
}

pub open spec fn name_match(es: Seq<(Seq<char>, Seq<char>)>, i: int, t: Seq<char>) -> bool {
    0 <= i < es.len() && ci_eq(es[i].0, t)
}

pub open spec fn lang_match(es: Seq<(Seq<char>, Seq<char>)>, i: int, t: Seq<char>) -> bool {
    0 <= i < es.len() && ci_eq(es[i].1, t)
}

/// Whether the target names any compiler or any language of the catalog.
pub open spec fn target_resolvable(es: Seq<(Seq<char>, Seq<char>)>, t: Seq<char>) -> bool {
    (exists|i: int| #[trigger] name_match(es, i, t)) || (exists|i: int|
        #[trigger] lang_match(es, i, t))
}

/// The resolution the catalog performs: the first compiler whose name
/// matches the target, or failing that the first whose language does.
pub open spec fn resolves_to(
    es: Seq<(Seq<char>, Seq<char>)>,
    t: Seq<char>,
    name: Seq<char>,
    lang: Seq<char>,
) -> bool {
    if exists|i: int| #[trigger] name_match(es, i, t) {
        exists|i: int|
            #[trigger] name_match(es, i, t) && es[i].0 == name && es[i].1 == lang && (forall|k: int|
                0 <= k < i ==> !name_match(es, k, t))
    } else {
        exists|i: int|
            #[trigger] lang_match(es, i, t) && es[i].0 == name && es[i].1 == lang && (forall|k: int|
                0 <= k < i ==> !lang_match(es, k, t))
    }
}

/// Relies on wandbox's Catalog::resolve: the target is matched with
/// eq_ignore_ascii_case, first against the compilers' names and then
/// against their languages, and the first matching compiler is returned;
/// its name and language are copied out here.
#[verifier::external_body]
fn catalog_resolve(cat: &wandbox::Catalog, target: &str) -> (r: Option<(String, String)>)
    ensures
        r is Some <==> target_resolvable(catalog_entries(*cat), target@),
        r matches Some(p) ==> resolves_to(catalog_entries(*cat), target@, p.0@, p.1@),
{
    cat.resolve(target).map(|c| (c.name.clone(), c.language.clone()))
}

/// The strings of `ss` joined with `sep` between them.
pub open spec fn join_with(ss: Seq<Seq<char>>, sep: char) -> Seq<char>
    decreases ss.len(),
{
    if ss.len() == 0 {
        Seq::empty()
    } else if ss.len() == 1 {
        ss[0]
    } else {
        join_with(ss.drop_last(), sep) + seq![sep] + ss.last()
    }
}

/// `s` split at each occurrence of `sep`; the empty string has no pieces.
pub open spec fn split_by(s: Seq<char>, sep: char) -> Seq<Seq<char>>
    decreases s.len(),
    via split_by_decreases
{
    if s.len() == 0 {
        Seq::empty()
    } else {
        let i = find_char(s, 0, sep);
        if i == s.len() {
            seq![s]
        } else {
            seq![s.take(i)] + split_by(s.skip(i + 1), sep)
        }
    }
}

#[via_fn]
proof fn split_by_decreases(s: Seq<char>, sep: char) {
    if s.len() > 0 {
        lemma_find_char_range(s, 0, sep);
    }
}

proof fn lemma_find_char_exact(s: Seq<char>, i: int, c: char, j: int)
    requires
        0 <= i <= j <= s.len(),
        forall|m: int| i <= m < j ==> s[m] != c,
        j == s.len() || s[j] == c,
    ensures
        find_char(s, i, c) == j,
    decreases j - i,
{
    if i < j {
        lemma_find_char_exact(s, i + 1, c, j);
    }
}

proof fn lemma_join_head(ss: Seq<Seq<char>>, sep: char)
    requires
        ss.len() >= 2,
    ensures
        join_with(ss, sep) == ss[0] + seq![sep] + join_with(ss.skip(1), sep),
    decreases ss.len(),
{
    if ss.len() == 2 {
        assert(ss.drop_last() =~= seq![ss[0]]);
        assert(ss.skip(1) =~= seq![ss[1]]);
        assert(join_with(ss.drop_last(), sep) == ss[0]);
        assert(join_with(ss.skip(1), sep) == ss[1]);
    } else {
        lemma_join_head(ss.drop_last(), sep);
        assert(ss.drop_last()[0] == ss[0]);
        assert(ss.skip(1).drop_last() =~= ss.drop_last().skip(1));
        assert(ss.skip(1).last() == ss.last());
        assert(join_with(ss.skip(1), sep) == join_with(ss.skip(1).drop_last(), sep) + seq![sep]
            + ss.last());
        assert(join_with(ss, sep) =~= ss[0] + seq![sep] + join_with(ss.skip(1), sep));
    }
}

/// Round trip: joining option strings with a separator none of them
/// contains, then splitting at that separator, gives back exactly the
/// original sequence — same order, same contents, no de-duplication.
pub proof fn lemma_options_round_trip(opts: Seq<Seq<char>>, sep: char)
    requires
        forall|k: int| 0 <= k < opts.len() ==> (#[trigger] opts[k]).len() > 0,
        forall|k: int, m: int|
            0 <= k < opts.len() && 0 <= m < opts[k].len() ==> #[trigger] opts[k][m] != sep,
    ensures
        split_by(join_with(opts, sep), sep) == opts,
    decreases opts.len(),
{
    let j = join_with(opts, sep);
    if opts.len() == 0 {
        assert(split_by(j, sep) =~= opts);
    } else if opts.len() == 1 {
        assert(j == opts[0]);
        lemma_find_char_exact(j, 0, sep, j.len() as int);
        assert(split_by(j, sep) =~= opts);
    } else {
        lemma_join_head(opts, sep);
        let h = opts[0];
        let rest = join_with(opts.skip(1), sep);
        assert(j == h + seq![sep] + rest);
        assert(forall|m: int| 0 <= m < h.len() ==> j[m] == h[m] && #[trigger] j[m] != sep);
        assert(j[h.len() as int] == sep);
        lemma_find_char_exact(j, 0, sep, h.len() as int);
        assert(j.take(h.len() as int) =~= h);
        assert(j.skip(h.len() + 1 as int) =~= rest);
        lemma_options_round_trip(opts.skip(1), sep);
        assert(seq![h] + opts.skip(1) =~= opts);
    }
}

/// Whether some string of `ls` equals `l` up to ASCII case.
pub open spec fn contains_ci(ls: Seq<Seq<char>>, l: Seq<char>) -> bool {
    exists|i: int| 0 <= i < ls.len() && ci_eq(#[trigger] ls[i], l)
}

/// The languages of a catalog: each compiler's language in order of first
/// appearance, deduplicated case-insensitively.
pub open spec fn langs_of(es: Seq<(Seq<char>, Seq<char>)>) -> Seq<Seq<char>>
    decreases es.len(),
{
    if es.len() == 0 {
        Seq::empty()
    } else {
        let prev = langs_of(es.drop_last());
        if contains_ci(prev, es.last().1) {
            prev
        } else {
            prev.push(es.last().1)
        }
    }
}

/// Relies on wandbox's Catalog::languages: each compiler's language, in
/// order of first appearance, deduplicated with eq_ignore_ascii_case; the
/// borrowed names are copied out here.
#[verifier::external_body]
fn catalog_languages(cat: &wandbox::Catalog) -> (r: Vec<String>)
    ensures
        views_of(r@) == langs_of(catalog_entries(*cat)),
{
    cat.languages().iter().map(|s| s.to_string()).collect()
}

/// The languages the backend supports, for the read-only listing
/// commands: first-appearance order, no case-insensitive duplicates, and
/// no mutation of the catalog.
pub fn supported_languages(cat: &wandbox::Catalog) -> (r: Vec<String>)
    ensures
        views_of(r@) == langs_of(catalog_entries(*cat)),
{
    catalog_languages(cat)
}

/// Round trip over a parsed command: the option tokens a successful parse
/// yields survive newline-joining into the backend request and splitting
/// back unchanged — same order, same contents.
pub proof fn lemma_parsed_options_round_trip(s: Seq<char>)
    ensures
        crate::parser::parse_outcome(s) matches Ok(m) ==> split_by(
            join_with(m.options, '\n'),
            '\n',
        ) == m.options,
{
    if crate::parser::parse_outcome(s) is Ok {
        let m = crate::parser::parse_outcome(s)->Ok_0;
        crate::parser::lemma_parsed_options_wf(s);
        assert(forall|k: int, q: int|
            0 <= k < m.options.len() && 0 <= q < m.options[k].len()
                ==> #[trigger] m.options[k][q] != '\n') by {
            assert(crate::parser::is_ws('\n'));
        }
        lemma_options_round_trip(m.options, '\n');
    }
}

/// Joins the option tokens with newlines, the form the backend request
/// carries raw compiler flags in.
fn join_options(opts: &Vec<String>) -> (s: String)
    ensures
        s@ == join_with(views_of(opts@), '\n'),
{
    let n = opts.len();
    let mut s = String::new();
    let mut k: usize = 0;
    proof {
        assert(views_of(opts@).take(0) =~= Seq::<Seq<char>>::empty());
    }
    while k < n
        invariant
            k <= n,
            n == opts@.len(),
            s@ == join_with(views_of(opts@).take(k as int), '\n'),
        decreases n - k,
    {
        let ghost vs = views_of(opts@);
        proof {
            reveal_strlit("\n");
            assert(vs.take(k + 1).drop_last() =~= vs.take(k as int));
            assert(vs.take(k + 1).last() == opts@[k as int]@);
        }
        if k == 0 {
            s = opts[k].clone();
            proof {
                assert(vs.take(1)[0] == opts@[0]@);
            }
        } else {
            s.append("\n");
            s.append(opts[k].as_str());
        }
        k = k + 1;
    }
    proof {
        assert(views_of(opts@).take(n as int) =~= views_of(opts@));
    }
    s
}

/// Why a backend request could not be built from a parsed command.
#[derive(Clone, Copy, PartialEq, Eq, Structural, Debug)]
pub enum BuildError {
    /// The target token names neither a compiler nor a language of the
    /// backend catalog.
    UnknownTarget,
}

/// A backend-native request together with the display language it was
/// resolved to, the key later usage counting runs under.
pub struct BuiltRequest {
    pub request: wandbox::CompilationRequest,
    pub language: String,
}

/// Builds the backend-native compilation request from a parsed command:
/// the target is resolved against the catalog, the code, stdin and options
/// are carried over unchanged (options newline-joined into the raw flag
/// field), and the backend is always asked to persist the run and reply
/// with a shareable permalink.
pub fn build_compilation_request(pr: &ParserResult, cat: &wandbox::Catalog) -> (r: Result<
    BuiltRequest,
    BuildError,
>)
    ensures
        r is Ok <==> target_resolvable(catalog_entries(*cat), pr.target@),
        r matches Err(e) ==> e == BuildError::UnknownTarget,
        r matches Ok(b) ==> {
            &&& resolves_to(catalog_entries(*cat), pr.target@, b.request.compiler@, b.language@)
            &&& b.request.code@ == pr.code@
            &&& b.request.stdin@ == pr.stdin@
            &&& b.request.compiler_option_raw@ == join_with(views_of(pr.options@), '\n')
            &&& b.request.save == true
            &&& b.request.options@ == Seq::<char>::empty()
            &&& b.request.runtime_option_raw@ == Seq::<char>::empty()
            &&& b.request.codes@ == Seq::<wandbox::SourceFile>::empty()
            &&& b.request.title is None
            &&& b.request.description is None
        },
{
    match catalog_resolve(cat, self_target(pr)) {
        None => Err(BuildError::UnknownTarget),
        Some((name, lang)) => {
            let request = wandbox::CompilationRequest {
                compiler: name,
                code: pr.code.clone(),
                codes: Vec::new(),
                options: String::new(),
                stdin: pr.stdin.clone(),
                compiler_option_raw: join_options(&pr.options),
                runtime_option_raw: String::new(),
                save: true,
                title: None,
                description: None,
            };
            Ok(BuiltRequest { request, language: lang })
        },
    }
}

/// The target token of a parsed command, as a string slice.
fn self_target(pr: &ParserResult) -> (t: &str)
    ensures
        t@ == pr.target@,
{
    pr.target.as_str()
}

/// What one backend run reported, reduced to the parts the bot reads.
pub struct ExecutionResult {
    /// Opaque backend exit-status token; `"0"` conventionally means success.
    pub status: String,
    /// Merged compiler diagnostics.
    pub compiler_output: String,
    /// Merged program output.
    pub program_output: String,
    /// Shareable permalink to the persisted run; empty when absent.
    pub url: String,
}

/// The status token that conventionally denotes success.
pub open spec fn success_token() -> Seq<char> {
    seq!['0']
}

pub open spec fn is_success(res: ExecutionResult) -> bool {
    res.status@ == success_token()
}

/// How a finished run is classified for the user-facing reaction.
#[derive(Clone, Copy, PartialEq, Eq, Structural, Debug)]
pub enum RunOutcome {
    Success,
    Failure,
}

/// Classifies a backend result: the exit-status token `"0"` is the success
/// path, any other token the failure path.
pub fn classify_result(res: &ExecutionResult) -> (o: RunOutcome)
    ensures
        (o == RunOutcome::Success) <==> is_success(*res),
{
    proof {
        reveal_strlit("0");
        assert("0"@ =~= seq!['0']);
    }
    let zero = String::from_str("0");
    if res.status.eq(&zero) {
        RunOutcome::Success
    } else {
        RunOutcome::Failure
    }
}

/// One usage-counter event: which language ran, and whether it failed.
pub struct StatsEvent {
    pub language: String,
    pub failed: bool,
}

/// Everything the caller must do once the dispatched backend call came
/// back (or failed): the interim processing affordance always comes off;
/// a result is rendered and counted only when one arrived.
pub struct ResponsePlan {
    /// Retract the "processing" affordance shown while the call ran.
    pub retract_processing: bool,
    /// Render the result back into the chat.
    pub show_result: bool,
    /// Attach the success reaction; otherwise the failure one.
    pub success_reaction: bool,
    /// Record this usage event, when counting is enabled.
    pub record_stats: Option<StatsEvent>,
}

/// Decides the response to a dispatch outcome. Whatever happened, the
/// processing affordance is retracted. A received result is shown, reacted
/// to by its status token, and counted (keyed by resolved language and by
/// whether the run failed) exactly when the stats feature flag is on; a
/// transport error shows nothing and counts nothing.
pub fn plan_response(
    outcome: &Result<ExecutionResult, String>,
    language: &String,
    stats_enabled: bool,
) -> (plan: ResponsePlan)
    ensures
        plan.retract_processing,
        plan.show_result == outcome is Ok,
        outcome matches Ok(res) ==> plan.success_reaction == is_success(*res),
        outcome is Err ==> !plan.success_reaction,
        outcome matches Ok(res) ==> (stats_enabled ==> (plan.record_stats matches Some(ev)
            && ev.language@ == language@ && ev.failed == !is_success(*res))),
        !stats_enabled || outcome is Err ==> plan.record_stats is None,
{
    match outcome {
        Ok(res) => {
            let success = match classify_result(res) {
                RunOutcome::Success => true,
                RunOutcome::Failure => false,
            };
            let record_stats = if stats_enabled {
                Some(StatsEvent { language: language.clone(), failed: !success })
            } else {
                None
            };
            ResponsePlan { retract_processing: true, show_result: true, success_reaction: success, record_stats }
        },
        Err(_) => ResponsePlan {
            retract_processing: true,
            show_result: false,
            success_reaction: false,
            record_stats: None,
        },
    }
}

} // verus!
