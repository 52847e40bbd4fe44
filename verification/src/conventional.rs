use vstd::prelude::*;

verus! {

// ------------------------------------------------------------------
// Commit record
// ------------------------------------------------------------------

/// The conventional-commit type token. Only `feat` and `fix` influence the
/// version bump; every other token (chore, docs, refactor, unknown words,
/// ...) is kept as `Other`, which never contributes a bump signal.
#[derive(Clone, Copy, Debug, PartialEq, Eq, Structural)]
pub enum Type {
    Feat,
    Fix,
    Other,
}

/// One parsed conventional commit.
#[derive(Debug)]
pub struct ParsedCommit {
    pub ty: Type,
    pub scope: Option<String>,
    pub breaking: bool,
    pub description: String,
}

/// The mathematical model of a `ParsedCommit`.
#[verifier::ext_equal]
pub struct ParsedCommitView {
    pub ty: Type,
    pub scope: Option<Seq<char>>,
    pub breaking: bool,
    pub description: Seq<char>,
}

impl View for ParsedCommit {
    type V = ParsedCommitView;

    open spec fn view(&self) -> ParsedCommitView {
        ParsedCommitView {
            ty: self.ty,
            scope: match self.scope {
                Some(s) => Some(s@),
                None => None,
            },
            breaking: self.breaking,
            description: self.description@,
        }
    }
}

/// Why a commit message was rejected.
#[derive(Clone, Copy, Debug, PartialEq, Eq, Structural)]
pub enum ParseError {
    /// The header line has no `type(scope)!: description` shape.
    MalformedHeader,
    /// The header is well-formed but its scope is refused by the configured
    /// scope pattern.
    ScopeMismatch,
}

/// Why a parser could not be built.
#[derive(Clone, Copy, Debug, PartialEq, Eq, Structural)]
pub enum ConfigError {
    /// The configured scope pattern is not a valid regular expression.
    InvalidScopeRegex,
}

// ------------------------------------------------------------------
// Trusted view of the regex crate
// ------------------------------------------------------------------

/// Whether `pattern` compiles as a regular expression; the result of
/// `regex::Regex::new` is a deterministic function of the pattern string.
pub uninterp spec fn regex_valid(pattern: Seq<char>) -> bool;

/// Whether the compiled form of `pattern` matches somewhere in `text`; the
/// result of `regex::Regex::is_match` is a deterministic function of the
/// pattern and the text.
pub uninterp spec fn regex_match_of(pattern: Seq<char>, text: Seq<char>) -> bool;

/// Relies on `regex::Regex::new`: it accepts or rejects a pattern
/// deterministically, depending on the pattern string alone.
#[verifier::external_body]
fn regex_pattern_valid(pattern: &str) -> (r: bool)
    ensures
        r == regex_valid(pattern@),
{
    regex::Regex::new(pattern).is_ok()
}

/// Relies on `regex::Regex::new` and `regex::Regex::is_match`: a valid
/// pattern compiles, and whether it matches somewhere in `text` depends on
/// the pattern and the text alone.
#[verifier::external_body]
fn regex_is_match(pattern: &str, text: &str) -> (r: bool)
    requires
        regex_valid(pattern@),
    ensures
        r == regex_match_of(pattern@, text@),
{
    regex::Regex::new(pattern).unwrap().is_match(text)
}

// ------------------------------------------------------------------
// The grammar, as spec functions
// ------------------------------------------------------------------

/// Characters allowed in the type token: ASCII letters and digits.
pub open spec fn is_type_char(c: char) -> bool {
    (97 <= c as u32 && c as u32 <= 122)  // 'a' ..= 'z'
    || (65 <= c as u32 && c as u32 <= 90)  // 'A' ..= 'Z'
    || (48 <= c as u32 && c as u32 <= 57)  // '0' ..= '9'
}

/// Characters that end a scope: parentheses and the end of the header line.
pub open spec fn is_scope_end(c: char) -> bool {
    c == '(' || c == ')' || c == '\n'
}

/// Length of the maximal prefix of type characters.
pub open spec fn type_len(s: Seq<char>) -> nat
    decreases s.len(),
{
    if s.len() == 0 || !is_type_char(s[0]) {
        0
    } else {
        (1 + type_len(s.skip(1))) as nat
    }
}

/// Distance to the first scope-ending character, or `s.len()` if none.
pub open spec fn scope_len(s: Seq<char>) -> nat
    decreases s.len(),
{
    if s.len() == 0 || is_scope_end(s[0]) {
        0
    } else {
        (1 + scope_len(s.skip(1))) as nat
    }
}

/// Distance to the first newline, or `s.len()` if none: the header length.
pub open spec fn line_len(s: Seq<char>) -> nat
    decreases s.len(),
{
    if s.len() == 0 || s[0] == '\n' {
        0
    } else {
        (1 + line_len(s.skip(1))) as nat
    }
}

/// The header line of a message: everything before the first newline.
pub open spec fn header_of(msg: Seq<char>) -> Seq<char> {
    msg.take(line_len(msg) as int)
}

/// The structured parts of a well-formed header line.
#[verifier::ext_equal]
pub struct HeaderView {
    pub type_token: Seq<char>,
    pub scope: Option<Seq<char>>,
    pub bang: bool,
    pub description: Seq<char>,
}

/// The tail of the header after the type token and the optional scope:
/// an optional `!`, then `": "`, then a non-empty description.
pub open spec fn parse_header_tail(
    type_token: Seq<char>,
    scope: Option<Seq<char>>,
    tail: Seq<char>,
) -> Option<HeaderView> {
    let bang = tail.len() > 0 && tail[0] == '!';
    let t2 = if bang {
        tail.skip(1)
    } else {
        tail
    };
    if t2.len() >= 3 && t2[0] == ':' && t2[1] == ' ' {
        Some(HeaderView { type_token, scope, bang, description: t2.skip(2) })
    } else {
        None
    }
}

/// The header grammar: `type`, optionally `(scope)` with a non-empty scope
/// free of parentheses, optionally `!`, then `": "` and a non-empty
/// description.
pub open spec fn parse_header(line: Seq<char>) -> Option<HeaderView> {
    let tl = type_len(line) as int;
    if tl == 0 {
        None
    } else if tl < line.len() && line[tl] == '(' {
        let inner = line.skip(tl + 1);
        let sl = scope_len(inner) as int;
        if sl == 0 || sl >= inner.len() || inner[sl] != ')' {
            None
        } else {
            parse_header_tail(line.take(tl), Some(inner.take(sl)), inner.skip(sl + 1))
        }
    } else {
        parse_header_tail(line.take(tl), None, line.skip(tl))
    }
}

/// Which bump-relevant type a token denotes.
pub open spec fn type_of_token(t: Seq<char>) -> Type {
    if t == "feat"@ {
        Type::Feat
    } else if t == "fix"@ {
        Type::Fix
    } else {
        Type::Other
    }
}

pub open spec fn breaking_space_token() -> Seq<char> {
    "BREAKING CHANGE:"@
}

pub open spec fn breaking_dash_token() -> Seq<char> {
    "BREAKING-CHANGE:"@
}

/// `tok` occurs in `s` starting at position `j`.
pub open spec fn token_at(s: Seq<char>, j: int, tok: Seq<char>) -> bool {
    0 <= j && j + tok.len() <= s.len() && s.subrange(j, j + tok.len()) == tok
}

/// Position `j` starts a body line of a message whose header ends at `hl`,
/// and a breaking-change footer token begins there.
pub open spec fn footer_witness(msg: Seq<char>, hl: int, j: int) -> bool {
    (j == hl || (hl < j && j <= msg.len() && msg[j - 1] == '\n')) && (token_at(
        msg,
        j,
        breaking_space_token(),
    ) || token_at(msg, j, breaking_dash_token()))
}

/// Some line of the body carries a `BREAKING CHANGE:` or `BREAKING-CHANGE:`
/// footer token at its start.
pub open spec fn has_breaking_footer(msg: Seq<char>, hl: int) -> bool {
    exists|j: int| hl <= j && #[trigger] footer_witness(msg, hl, j)
}

/// Whether the configured scope pattern accepts the parsed scope. A message
/// without a scope is always accepted.
pub open spec fn scope_accepted(scope_regex: Option<Seq<char>>, scope: Option<Seq<char>>) -> bool {
    match (scope_regex, scope) {
        (Some(re), Some(sc)) => regex_match_of(re, sc),
        _ => true,
    }
}

/// The whole parse: header grammar on the first line, scope restriction,
/// breaking marker from the header `!` or from a footer line.
pub open spec fn parse_result(scope_regex: Option<Seq<char>>, msg: Seq<char>) -> Option<
    ParsedCommitView,
> {
    let hl = line_len(msg) as int;
    match parse_header(header_of(msg)) {
        None => None,
        Some(h) => if scope_accepted(scope_regex, h.scope) {
            Some(
                ParsedCommitView {
                    ty: type_of_token(h.type_token),
                    scope: h.scope,
                    breaking: h.bang || has_breaking_footer(msg, hl),
                    description: h.description,
                },
            )
        } else {
            None
        },
    }
}

// ------------------------------------------------------------------
// Scan lemmas: each scan spec yields the first position its class ends
// ------------------------------------------------------------------

proof fn lemma_type_len_is(s: Seq<char>, i: int)
    requires
        0 <= i <= s.len(),
        forall|k: int| 0 <= k < i ==> is_type_char(s[k]),
        i < s.len() ==> !is_type_char(s[i]),
    ensures
        type_len(s) == i,
    decreases i,
{
    if i == 0 {
    } else {
        assert forall|k: int| 0 <= k < i - 1 implies is_type_char(s.skip(1)[k]) by {
            assert(s.skip(1)[k] == s[k + 1]);
        }
        if i - 1 < s.skip(1).len() {
            assert(s.skip(1)[i - 1] == s[i]);
        }
        lemma_type_len_is(s.skip(1), i - 1);
    }
}

proof fn lemma_scope_len_is(s: Seq<char>, i: int)
    requires
        0 <= i <= s.len(),
        forall|k: int| 0 <= k < i ==> !is_scope_end(s[k]),
        i < s.len() ==> is_scope_end(s[i]),
    ensures
        scope_len(s) == i,
    decreases i,
{
    if i == 0 {
    } else {
        assert forall|k: int| 0 <= k < i - 1 implies !is_scope_end(s.skip(1)[k]) by {
            assert(s.skip(1)[k] == s[k + 1]);
        }
        if i - 1 < s.skip(1).len() {
            assert(s.skip(1)[i - 1] == s[i]);
        }
        lemma_scope_len_is(s.skip(1), i - 1);
    }
}

proof fn lemma_line_len_is(s: Seq<char>, i: int)
    requires
        0 <= i <= s.len(),
        forall|k: int| 0 <= k < i ==> s[k] != '\n',
        i < s.len() ==> s[i] == '\n',
    ensures
        line_len(s) == i,
    decreases i,
{
    if i == 0 {
    } else {
        assert forall|k: int| 0 <= k < i - 1 implies s.skip(1)[k] != '\n' by {
            assert(s.skip(1)[k] == s[k + 1]);
        }
        if i - 1 < s.skip(1).len() {
            assert(s.skip(1)[i - 1] == s[i]);
        }
        lemma_line_len_is(s.skip(1), i - 1);
    }
}

// ------------------------------------------------------------------
// Executable character classes and token matching
// ------------------------------------------------------------------

fn type_char(c: char) -> (b: bool)
    ensures
        b == is_type_char(c),
{
    let u = c as u32;
    (97 <= u && u <= 122) || (65 <= u && u <= 90) || (48 <= u && u <= 57)
}

fn scope_end_char(c: char) -> (b: bool)
    ensures
        b == is_scope_end(c),
{
    c == '(' || c == ')' || c == '\n'
}

/// The characters of a breaking-change footer token, with a space or a dash
/// between the two words.
fn breaking_token(dash: bool) -> (t: Vec<char>)
    ensures
        t@ == if dash {
            breaking_dash_token()
        } else {
            breaking_space_token()
        },
{
    proof {
        reveal_strlit("BREAKING CHANGE:");
        reveal_strlit("BREAKING-CHANGE:");
    }
    let mut t: Vec<char> = Vec::new();
    t.push('B');
    t.push('R');
    t.push('E');
    t.push('A');
    t.push('K');
    t.push('I');
    t.push('N');
    t.push('G');
    if dash {
        t.push('-');
    } else {
        t.push(' ');
    }
    t.push('C');
    t.push('H');
    t.push('A');
    t.push('N');
    t.push('G');
    t.push('E');
    t.push(':');
    proof {
        if dash {
            assert(t@ =~= breaking_dash_token());
        } else {
            assert(t@ =~= breaking_space_token());
        }
    }
    t
}

fn token_matches_at(chars: &Vec<char>, j: usize, tok: &Vec<char>) -> (b: bool)
    requires
        j <= chars@.len(),
    ensures
        b == token_at(chars@, j as int, tok@),
{
    let clen: usize = chars.len();
    if clen - j < tok.len() {
        return false;
    }
    let mut k: usize = 0;
    while k < tok.len()
        invariant
            0 <= k <= tok@.len(),
            j + tok@.len() <= clen,
            clen == chars@.len(),
            forall|m: int| 0 <= m < k ==> chars@[j + m] == tok@[m],
        decreases tok@.len() - k,
    {
        let idx: usize = j + k;
        if chars[idx] != tok[k] {
            proof {
                assert(chars@.subrange(j as int, j + tok@.len())[k as int] == chars@[j + k]);
            }
            return false;
        }
        k = k + 1;
    }
    proof {
        assert(chars@.subrange(j as int, j + tok@.len()) =~= tok@);
    }
    true
}

fn classify_type(chars: &Vec<char>, tl: usize) -> (t: Type)
    requires
        tl <= chars@.len(),
    ensures
        t == type_of_token(chars@.take(tl as int)),
{
    proof {
        reveal_strlit("feat");
        reveal_strlit("fix");
    }
    if tl == 4 && chars[0] == 'f' && chars[1] == 'e' && chars[2] == 'a' && chars[3] == 't' {
        proof {
            assert(chars@.take(tl as int) =~= "feat"@);
        }
        Type::Feat
    } else if tl == 3 && chars[0] == 'f' && chars[1] == 'i' && chars[2] == 'x' {
        proof {
            assert(chars@.take(tl as int) =~= "fix"@);
        }
        Type::Fix
    } else {
        proof {
            let tok = chars@.take(tl as int);
            if tok == "feat"@ {
                assert(tok.len() == 4);
                assert(tok[0] == 'f' && tok[1] == 'e' && tok[2] == 'a' && tok[3] == 't');
                assert(chars@[0] == 'f' && chars@[1] == 'e' && chars@[2] == 'a' && chars@[3]
                    == 't');
            }
            if tok == "fix"@ {
                assert(tok.len() == 3);
                assert(tok[0] == 'f' && tok[1] == 'i' && tok[2] == 'x');
                assert(chars@[0] == 'f' && chars@[1] == 'i' && chars@[2] == 'x');
            }
        }
        Type::Other
    }
}

// ------------------------------------------------------------------
// The parser
// ------------------------------------------------------------------

/// Parses raw commit messages against the conventional-commit grammar,
/// optionally restricting scopes to a configured regular expression.
#[derive(Debug)]
pub struct CommitParser {
    scope_regex: Option<String>,
}

impl View for CommitParser {
    type V = Option<Seq<char>>;

    closed spec fn view(&self) -> Option<Seq<char>> {
        match self.scope_regex {
            Some(s) => Some(s@),
            None => None,
        }
    }
}

/// Collects the configuration of a `CommitParser` before it is built.
#[derive(Debug)]
pub struct CommitParserBuilder {
    scope_regex: Option<String>,
}

impl View for CommitParserBuilder {
    type V = Option<Seq<char>>;

    closed spec fn view(&self) -> Option<Seq<char>> {
        match self.scope_regex {
            Some(s) => Some(s@),
            None => None,
        }
    }
}

impl CommitParserBuilder {
    /// Restrict accepted scopes to strings matching `pattern`.
    pub fn scope_regex(self, pattern: String) -> (b: CommitParserBuilder)
        ensures
            b@ == Some(pattern@),
    {
        CommitParserBuilder { scope_regex: Some(pattern) }
    }

    /// Check the configuration and produce the parser; an invalid scope
    /// pattern is fatal here, never later.
    pub fn build(self) -> (r: Result<CommitParser, ConfigError>)
        ensures
            r matches Ok(p) ==> p@ == self@,
            r is Ok <==> (match self@ {
                Some(re) => regex_valid(re),
                None => true,
            }),
    {
        match self.scope_regex {
            None => Ok(CommitParser { scope_regex: None }),
            Some(re) => {
                if regex_pattern_valid(re.as_str()) {
                    Ok(CommitParser { scope_regex: Some(re) })
                } else {
                    Err(ConfigError::InvalidScopeRegex)
                }
            },
        }
    }
}

impl CommitParser {
    #[verifier::type_invariant]
    spec fn wf(self) -> bool {
        match self.scope_regex {
            Some(s) => regex_valid(s@),
            None => true,
        }
    }

    /// Start configuring a parser; with no further options every scope is
    /// accepted.
    pub fn builder() -> (b: CommitParserBuilder)
        ensures
            b@ is None,
    {
        CommitParserBuilder { scope_regex: None }
    }

    /// Parse one raw commit message.
    ///
    /// The result is `Ok` exactly when the header line follows the grammar
    /// and the scope, if both it and a scope pattern are present, matches
    /// the pattern; the parsed record is then exactly `parse_result`.
    /// A structurally malformed header gives `MalformedHeader`; a
    /// well-formed header whose scope the pattern refuses gives
    /// `ScopeMismatch`.
    #[verifier::rlimit(100)]
    pub fn parse(&self, message: &str) -> (r: Result<ParsedCommit, ParseError>)
        ensures
            r is Ok <==> parse_result(self@, message@) is Some,
            r matches Ok(pc) ==> parse_result(self@, message@) == Some(pc@),
            r == Err::<ParsedCommit, ParseError>(ParseError::MalformedHeader) <==> parse_header(
                header_of(message@),
            ) is None,
            r == Err::<ParsedCommit, ParseError>(ParseError::ScopeMismatch) <==> (parse_header(
                header_of(message@),
            ) matches Some(h) && !scope_accepted(self@, h.scope)),
    {
        proof {
            use_type_invariant(&*self);
        }
        let n = message.unicode_len();
        let mut chars: Vec<char> = Vec::new();
        let mut i: usize = 0;
        while i < n
            invariant
                i <= n,
                n == message@.len(),
                chars@ == message@.take(i as int),
            decreases n - i,
        {
            chars.push(message.get_char(i));
            i = i + 1;
            proof {
                assert(chars@ =~= message@.take(i as int));
            }
        }
        let ghost msg = message@;
        proof {
            assert(chars@ =~= msg);
        }
        // header: everything before the first newline
        let mut hl: usize = 0;
        while hl < n && chars[hl] != '\n'
            invariant
                hl <= n,
                n == chars@.len(),
                chars@ == msg,
                forall|k: int| 0 <= k < hl ==> msg[k] != '\n',
            decreases n - hl,
        {
            hl = hl + 1;
        }
        proof {
            lemma_line_len_is(msg, hl as int);
        }
        let ghost hdr = header_of(msg);
        proof {
            assert(hdr =~= msg.take(hl as int));
        }
        // type token: maximal run of letters and digits
        let mut tl: usize = 0;
        while tl < hl && type_char(chars[tl])
            invariant
                tl <= hl,
                hl <= n,
                n == chars@.len(),
                chars@ == msg,
                forall|k: int| 0 <= k < tl ==> is_type_char(msg[k]),
            decreases hl - tl,
        {
            tl = tl + 1;
        }
        proof {
            assert forall|k: int| 0 <= k < tl implies is_type_char(hdr[k]) by {
                assert(hdr[k] == msg[k]);
            }
            if (tl as int) < hl {
                assert(hdr[tl as int] == msg[tl as int]);
            }
            lemma_type_len_is(hdr, tl as int);
        }
        if tl == 0 {
            proof {
                assert(parse_header(hdr) is None);
            }
            return Err(ParseError::MalformedHeader);
        }
        // optional scope
        let mut scope_str: Option<String> = None;
        let ghost mut spec_scope: Option<Seq<char>> = None;
        let p: usize;
        if tl < hl && chars[tl] == '(' {
            let mut se: usize = tl + 1;
            while se < hl && !scope_end_char(chars[se])
                invariant
                    tl + 1 <= se <= hl,
                    hl <= n,
                    n == chars@.len(),
                    chars@ == msg,
                    forall|k: int| tl + 1 <= k < se ==> !is_scope_end(msg[k]),
                decreases hl - se,
            {
                se = se + 1;
            }
            let ghost inner = hdr.skip(tl + 1);
            proof {
                assert(inner.len() == hl - tl - 1);
                assert forall|k: int| 0 <= k < se - tl - 1 implies !is_scope_end(inner[k]) by {
                    assert(inner[k] == hdr[k + tl + 1]);
                    assert(hdr[k + tl + 1] == msg[k + tl + 1]);
                }
                if se < hl {
                    assert(inner[se - tl - 1] == hdr[se as int]);
                    assert(hdr[se as int] == msg[se as int]);
                }
                lemma_scope_len_is(inner, se - tl - 1);
            }
            if se == hl {
                proof {
                    assert(parse_header(hdr) is None);
                }
                return Err(ParseError::MalformedHeader);
            }
            if chars[se] != ')' {
                proof {
                    assert(inner[se - tl - 1] == msg[se as int]);
                    assert(parse_header(hdr) is None);
                }
                return Err(ParseError::MalformedHeader);
            }
            if se == tl + 1 {
                proof {
                    assert(parse_header(hdr) is None);
                }
                return Err(ParseError::MalformedHeader);
            }
            let sc = message.substring_char(tl + 1, se).to_owned();
            proof {
                assert(inner[se - tl - 1] == msg[se as int]);
                assert(sc@ =~= inner.take(se - tl - 1));
                spec_scope = Some(inner.take(se - tl - 1));
            }
            scope_str = Some(sc);
            p = se + 1;
            proof {
                assert(inner.skip(se - tl - 1 + 1) =~= hdr.skip(p as int));
            }
        } else {
            p = tl;
        }
        // optional '!', then ": ", then a non-empty description
        let ghost tail = hdr.skip(p as int);
        let mut bang = false;
        let mut q: usize = p;
        if q < hl && chars[q] == '!' {
            proof {
                assert(tail[0] == hdr[p as int]);
                assert(hdr[p as int] == msg[p as int]);
            }
            bang = true;
            q = q + 1;
        }
        proof {
            if p < hl {
                assert(tail[0] == hdr[p as int]);
                assert(hdr[p as int] == msg[p as int]);
            }
            assert(hdr.skip(q as int) =~= if bang {
                tail.skip(1)
            } else {
                tail
            });
        }
        let ghost t2 = hdr.skip(q as int);
        if !(hl - q >= 3 && chars[q] == ':' && chars[q + 1] == ' ') {
            proof {
                assert(t2.len() == hl - q);
                if (q as int) < hl {
                    assert(t2[0] == hdr[q as int]);
                    assert(hdr[q as int] == msg[q as int]);
                }
                if (q as int) + 1 < hl {
                    assert(t2[1] == hdr[q as int + 1]);
                    assert(hdr[q as int + 1] == msg[q as int + 1]);
                }
                assert(parse_header(hdr) is None);
            }
            return Err(ParseError::MalformedHeader);
        }
        proof {
            assert(t2[0] == hdr[q as int] && t2[1] == hdr[q as int + 1]);
            assert(hdr[q as int] == msg[q as int] && hdr[q as int + 1] == msg[q as int + 1]);
        }
        let desc = message.substring_char(q + 2, hl).to_owned();
        proof {
            assert(desc@ =~= t2.skip(2));
        }
        let ty = classify_type(&chars, tl);
        proof {
            assert(chars@.take(tl as int) =~= hdr.take(tl as int));
        }
        let ghost h = HeaderView {
            type_token: hdr.take(tl as int),
            scope: spec_scope,
            bang,
            description: t2.skip(2),
        };
        proof {
            assert(parse_header(hdr) == Some(h));
        }
        // breaking-change footer in the body
        let space_tok = breaking_token(false);
        let dash_tok = breaking_token(true);
        let mut found = false;
        let mut j: usize = hl;
        while j < n
            invariant
                hl <= j <= n,
                n == chars@.len(),
                chars@ == msg,
                line_len(msg) == hl,
                space_tok@ == breaking_space_token(),
                dash_tok@ == breaking_dash_token(),
                found <==> exists|j0: int|
                    hl <= j0 < j && #[trigger] footer_witness(msg, hl as int, j0),
            decreases n - j,
        {
            let starts = j == hl || chars[j - 1] == '\n';
            if starts {
                if token_matches_at(&chars, j, &space_tok) || token_matches_at(
                    &chars,
                    j,
                    &dash_tok,
                ) {
                    found = true;
                    proof {
                        assert(footer_witness(msg, hl as int, j as int));
                    }
                } else {
                    proof {
                        assert(!footer_witness(msg, hl as int, j as int));
                    }
                }
            } else {
                proof {
                    assert(!footer_witness(msg, hl as int, j as int));
                }
            }
            j = j + 1;
        }
        proof {
            reveal_strlit("BREAKING CHANGE:");
            reveal_strlit("BREAKING-CHANGE:");
            if has_breaking_footer(msg, hl as int) {
                let j0 = choose|j0: int| hl <= j0 && #[trigger] footer_witness(msg, hl as int, j0);
                assert(breaking_space_token().len() == 16);
                assert(breaking_dash_token().len() == 16);
                assert(j0 < n);
                assert(found);
            }
            if found {
                assert(has_breaking_footer(msg, hl as int));
            }
        }
        // scope restriction
        let accepted: bool;
        if let Some(re) = &self.scope_regex {
            if let Some(sc) = &scope_str {
                accepted = regex_is_match(re.as_str(), sc.as_str());
            } else {
                accepted = true;
            }
        } else {
            accepted = true;
        }
        proof {
            assert(accepted == scope_accepted(self@, h.scope));
        }
        if !accepted {
            return Err(ParseError::ScopeMismatch);
        }
        let pc = ParsedCommit { ty, scope: scope_str, breaking: bang || found, description: desc };
        proof {
            assert(pc@ =~= ParsedCommitView {
                ty: type_of_token(h.type_token),
                scope: h.scope,
                breaking: h.bang || has_breaking_footer(msg, line_len(msg) as int),
                description: h.description,
            });
            assert(parse_result(self@, msg) == Some(pc@));
        }
        Ok(pc)
    }
}

} // verus!
