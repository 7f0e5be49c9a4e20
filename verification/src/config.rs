//! The client's configuration, as already-read values, and the expansion of
//! the environment variables that its arguments name.

use crate::search::{lemma_position, position};
use crate::text::{same_text, texts_view};
use vstd::prelude::*;
use vstd::string::*;

verus! {

/// The settings of the client.
#[derive(Clone, Debug)]
pub struct Config {
    server_url: String,
    develop_args: Vec<String>,
    run_args: Vec<String>,
}

/// The mathematical value of a [`Config`].
pub struct ConfigView {
    pub server_url: Seq<char>,
    pub develop_args: Seq<Seq<char>>,
    pub run_args: Seq<Seq<char>>,
}

impl View for Config {
    type V = ConfigView;

    closed spec fn view(&self) -> ConfigView {
        ConfigView {
            server_url: self.server_url@,
            develop_args: self.develop_args.deep_view(),
            run_args: self.run_args.deep_view(),
        }
    }
}

/// The address of the relay's channel for clients.
pub open spec fn client_channel_url(server_url: Seq<char>) -> Seq<char> {
    "ws://"@ + server_url + "/client"@
}

/// The address of the remote cache.
pub open spec fn cache_endpoint_url(server_url: Seq<char>) -> Seq<char> {
    "http://"@ + server_url
}

impl Default for Config {
    /// The configuration of a client that was given none: no address, no
    /// extra arguments.
    fn default() -> (config: Self)
        ensures
            config@.server_url.len() == 0,
            config@.develop_args.len() == 0,
            config@.run_args.len() == 0,
    {
        let config = Config {
            server_url: String::new(),
            develop_args: Vec::new(),
            run_args: Vec::new(),
        };
        assert(config.develop_args.deep_view() =~= Seq::<Seq<char>>::empty());
        assert(config.run_args.deep_view() =~= Seq::<Seq<char>>::empty());
        config
    }
}

impl Config {
    /// A configuration with these settings.
    pub fn new(server_url: String, develop_args: Vec<String>, run_args: Vec<String>) -> (config:
        Self)
        ensures
            config@.server_url == server_url@,
            config@.develop_args == develop_args.deep_view(),
            config@.run_args == run_args.deep_view(),
    {
        Config { server_url, develop_args, run_args }
    }

    /// The address of the relay's channel for clients.
    pub fn websocket_url(&self) -> (url: String)
        ensures
            url@ == client_channel_url(self@.server_url),
    {
        let mut url = String::from_str("ws://");
        url.append(self.server_url.as_str());
        url.append("/client");
        url
    }

    /// The address of the remote cache.
    pub fn cache_url(&self) -> (url: String)
        ensures
            url@ == cache_endpoint_url(self@.server_url),
    {
        let mut url = String::from_str("http://");
        url.append(self.server_url.as_str());
        url
    }

    /// Checks a configuration that was read: it must name the relay. One
    /// without an address is refused, with the text to show.
    pub fn load(parsed: Config) -> (result: Result<Config, String>)
        ensures
            result is Ok <==> parsed@.server_url.len() > 0,
            result is Ok ==> result->Ok_0@ == parsed@,
            result is Err ==> result->Err_0@ == undefined_address_message(),
    {
        if parsed.server_url.as_str().unicode_len() == 0 {
            Err(undefined_address_text())
        } else {
            Ok(parsed)
        }
    }

    /// The extra arguments for entering a development environment, with
    /// each `$NAME` in them replaced by the value that `env` gives `NAME`.
    /// A name that `env` does not define is an error.
    pub fn develop_args(&self, env: &Vec<(String, String)>) -> (result: Result<
        Vec<String>,
        MissingVariable,
    >)
        ensures
            expansion_view(result) == expanded(pattern_text(), self@.develop_args, env_view(env@)),
    {
        Self::expand_env_vars(&self.develop_args, env)
    }

    /// The extra arguments for running an executable, with each `$NAME` in
    /// them replaced by the value that `env` gives `NAME`. A name that `env`
    /// does not define is an error.
    pub fn run_args(&self, env: &Vec<(String, String)>) -> (result: Result<
        Vec<String>,
        MissingVariable,
    >)
        ensures
            expansion_view(result) == expanded(pattern_text(), self@.run_args, env_view(env@)),
    {
        Self::expand_env_vars(&self.run_args, env)
    }

    /// Each of `vec` with the variables it names replaced by their values in
    /// `env`; the first name that `env` does not define is an error.
    pub fn expand_env_vars(vec: &Vec<String>, env: &Vec<(String, String)>) -> (result: Result<
        Vec<String>,
        MissingVariable,
    >)
        ensures
            expansion_view(result) == expanded(pattern_text(), vec.deep_view(), env_view(env@)),
    {
        let pattern = variable_pattern();
        let mut out: Vec<String> = Vec::new();
        let mut i: usize = 0;
        let ghost args = vec.deep_view();
        assert(args.take(0) =~= Seq::<Seq<char>>::empty());
        assert(out.deep_view() =~= Seq::<Seq<char>>::empty());
        while i < vec.len()
            invariant
                i <= vec.len(),
                args == vec.deep_view(),
                pattern@ == pattern_text(),
                expanded(pattern@, args.take(i as int), env_view(env@)) == Ok::<
                    Seq<Seq<char>>,
                    Seq<char>,
                >(out.deep_view()),
            decreases vec.len() - i,
        {
            proof {
                assert(args.take(i + 1).drop_last() =~= args.take(i as int));
                assert(args.take(i + 1).last() == vec[i as int]@);
            }
            let ghost before = out.deep_view();
            match expand_one(pattern, vec[i].as_str(), env) {
                Ok(text) => {
                    out.push(text);
                    assert(out.deep_view() =~= before.push(text@));
                },
                Err(missing) => {
                    proof {
                        lemma_expanded_stops(pattern@, args, env_view(env@), i + 1);
                    }
                    return Err(missing);
                },
            }
            i += 1;
        }
        assert(args.take(vec.len() as int) =~= args);
        Ok(out)
    }
}

/// The pattern of a variable in an argument: a dollar sign and the name, made
/// of word characters.
pub open spec fn pattern_text() -> Seq<char> {
    r"\$(\w+)"@
}

/// The pattern of a variable in an argument.
pub fn variable_pattern() -> (pattern: &'static str)
    ensures
        pattern@ == pattern_text(),
{
    r"\$(\w+)"
}

/// The text shown where a configuration names no relay.
pub open spec fn undefined_address_message() -> Seq<char> {
    "`server_url` is undefined in the configuration. "@
        + "Please set it in ~/.config/nix-relay/nixr.toml."@
}

/// The text of `undefined_address_message`.
fn undefined_address_text() -> (text: String)
    ensures
        text@ == undefined_address_message(),
{
    let mut text = String::from_str("`server_url` is undefined in the configuration. ");
    text.append("Please set it in ~/.config/nix-relay/nixr.toml.");
    text
}

/// An argument names a variable that the environment does not define.
#[derive(Debug, PartialEq, Eq)]
pub struct MissingVariable {
    pub name: String,
}

/// The value of an environment: its pairs of name and value, in order.
pub open spec fn env_view(env: Seq<(String, String)>) -> Seq<(Seq<char>, Seq<char>)> {
    Seq::new(env.len(), |i: int| (env[i].0@, env[i].1@))
}

/// The value of the outcome of an expansion.
pub open spec fn expansion_view(result: Result<Vec<String>, MissingVariable>) -> Result<
    Seq<Seq<char>>,
    Seq<char>,
> {
    match result {
        Ok(args) => Ok(args.deep_view()),
        Err(missing) => Err(missing.name@),
    }
}

/// The names of the pairs of an environment, in order.
pub open spec fn names_of(env: Seq<(Seq<char>, Seq<char>)>) -> Seq<Seq<char>> {
    Seq::new(env.len(), |i: int| env[i].0)
}

/// The value that the environment gives `name`: that of the first pair with
/// this name; none where there is no such pair.
pub open spec fn defined(env: Seq<(Seq<char>, Seq<char>)>, name: Seq<char>) -> Option<Seq<char>> {
    if position(names_of(env), name) < env.len() {
        Some(env[position(names_of(env), name)].1)
    } else {
        None
    }
}

/// The first of `names` that the environment does not define.
pub open spec fn first_undefined(names: Seq<Seq<char>>, env: Seq<(Seq<char>, Seq<char>)>) -> Option<
    Seq<char>,
>
    decreases names.len(),
{
    if names.len() == 0 {
        None
    } else if defined(env, names[0]) is None {
        Some(names[0])
    } else {
        first_undefined(names.drop_first(), env)
    }
}

/// The names that the matches of `pattern` in `text` capture in their first
/// group, in order; none where `pattern` is not a regular expression.
pub uninterp spec fn referenced(pattern: Seq<char>, text: Seq<char>) -> Option<Seq<Seq<char>>>;

/// `text` with every match of `pattern` replaced by the value that `env`
/// gives the name captured in the match's first group, and by nothing where
/// it gives none; none where `pattern` is not a regular expression.
pub uninterp spec fn replaced(
    pattern: Seq<char>,
    text: Seq<char>,
    env: Seq<(Seq<char>, Seq<char>)>,
) -> Option<Seq<char>>;

/// The expansion of one argument: an error for the first variable it names
/// that the environment does not define, else the text with every variable
/// replaced.
pub open spec fn expanded_one(
    pattern: Seq<char>,
    text: Seq<char>,
    env: Seq<(Seq<char>, Seq<char>)>,
) -> Result<Seq<char>, Seq<char>> {
    match referenced(pattern, text) {
        None => Ok(text),
        Some(names) => match first_undefined(names, env) {
            Some(name) => Err(name),
            None => match replaced(pattern, text, env) {
                Some(out) => Ok(out),
                None => Ok(text),
            },
        },
    }
}

/// The expansion of a list of arguments: the error of the first argument
/// that has one, else the expansions in order.
pub open spec fn expanded(
    pattern: Seq<char>,
    args: Seq<Seq<char>>,
    env: Seq<(Seq<char>, Seq<char>)>,
) -> Result<Seq<Seq<char>>, Seq<char>>
    decreases args.len(),
{
    if args.len() == 0 {
        Ok(Seq::empty())
    } else {
        match expanded(pattern, args.drop_last(), env) {
            Err(name) => Err(name),
            Ok(done) => match expanded_one(pattern, args.last(), env) {
                Err(name) => Err(name),
                Ok(text) => Ok(done.push(text)),
            },
        }
    }
}

/// An expansion that fails on the first `k` arguments fails in the same way
/// on all of them.
pub proof fn lemma_expanded_stops(
    pattern: Seq<char>,
    args: Seq<Seq<char>>,
    env: Seq<(Seq<char>, Seq<char>)>,
    k: int,
)
    requires
        0 <= k <= args.len(),
        expanded(pattern, args.take(k), env) is Err,
    ensures
        expanded(pattern, args, env) == expanded(pattern, args.take(k), env),
    decreases args.len() - k,
{
    if k < args.len() {
        assert(args.take(k + 1).drop_last() =~= args.take(k));
        lemma_expanded_stops(pattern, args, env, k + 1);
    } else {
        assert(args.take(k) =~= args);
    }
}

/// The value that `env` gives `name`.
pub fn value_of(env: &Vec<(String, String)>, name: &str) -> (value: Option<String>)
    ensures
        value is Some <==> defined(env_view(env@), name@) is Some,
        value is Some ==> value->0@ == defined(env_view(env@), name@)->0,
{
    let mut i: usize = 0;
    while i < env.len()
        invariant
            i <= env.len(),
            forall|j: int| 0 <= j < i ==> names_of(env_view(env@))[j] != name@,
        decreases env.len() - i,
    {
        if same_text(env[i].0.as_str(), name) {
            proof {
                lemma_position(names_of(env_view(env@)), name@, i as int);
            }
            return Some(env[i].1.clone());
        }
        i += 1;
    }
    proof {
        lemma_position(names_of(env_view(env@)), name@, i as int);
    }
    None
}

/// The value that `env` gives `name`, and the empty text where it gives
/// none.
pub fn value_or_empty(env: &Vec<(String, String)>, name: &str) -> (value: String)
    ensures
        value@ == match defined(env_view(env@), name@) {
            Some(v) => v,
            None => Seq::<char>::empty(),
        },
{
    match value_of(env, name) {
        Some(value) => value,
        None => String::new(),
    }
}

/// The first of `names` that `env` does not define.
pub fn first_missing(names: &Vec<String>, env: &Vec<(String, String)>) -> (missing: Option<String>)
    ensures
        missing is Some <==> first_undefined(names.deep_view(), env_view(env@)) is Some,
        missing is Some ==> missing->0@ == first_undefined(names.deep_view(), env_view(env@))->0,
{
    let ghost all = names.deep_view();
    let mut i: usize = 0;
    assert(all.skip(0) =~= all);
    while i < names.len()
        invariant
            i <= names.len(),
            all == names.deep_view(),
            first_undefined(all, env_view(env@)) == first_undefined(
                all.skip(i as int),
                env_view(env@),
            ),
        decreases names.len() - i,
    {
        proof {
            assert(all.skip(i as int)[0] == names[i as int]@);
            assert(all.skip(i as int).drop_first() =~= all.skip(i + 1));
        }
        if value_of(env, names[i].as_str()).is_none() {
            return Some(names[i].clone());
        }
        i += 1;
    }
    None
}

/// The names that the matches of `pattern` in `text` capture.
///
/// Trusted: calls `regex::Regex::new` and `regex::Regex::captures_iter`. The
/// contract claims only that the answer depends on the pattern and the text
/// alone: it is `referenced` of the two. By the crate's source the answer is
/// none where the pattern does not compile, and else, for each match from
/// left to right, the text of its first capture group (the empty text where
/// the match has none).
#[verifier::external_body]
fn references(pattern: &str, text: &str) -> (names: Option<Vec<String>>)
    ensures
        texts_view(names) == referenced(pattern@, text@),
{
    let regex = regex::Regex::new(pattern).ok()?;
    Some(
        regex.captures_iter(text).map(
            |caps| caps.get(1).map_or(String::new(), |m| m.as_str().to_string()),
        ).collect(),
    )
}

/// `text` with the matches of `pattern` replaced by values from `env`.
///
/// Trusted: calls `regex::Regex::new` and `regex::Regex::replace_all`, with
/// a replacer that hands the text of the first capture group of each match
/// to `value_or_empty`. The contract claims only that the answer depends on
/// the pattern, the text and the environment alone: it is `replaced` of the
/// three. By the crate's source the answer is none where the pattern does
/// not compile, and else the text with each match, from left to right and
/// not overlapping, replaced by what the replacer returned for it.
#[verifier::external_body]
fn replace(pattern: &str, text: &str, env: &Vec<(String, String)>) -> (out: Option<String>)
    ensures
        match out {
            Some(t) => replaced(pattern@, text@, env_view(env@)) == Some(t@),
            None => replaced(pattern@, text@, env_view(env@)) is None,
        },
{
    let regex = regex::Regex::new(pattern).ok()?;
    Some(
        regex.replace_all(
            text,
            |caps: &regex::Captures| value_or_empty(env, caps.get(1).map_or("", |m| m.as_str())),
        ).into_owned(),
    )
}

/// The expansion of one argument.
fn expand_one(pattern: &str, text: &str, env: &Vec<(String, String)>) -> (result: Result<
    String,
    MissingVariable,
>)
    ensures
        match result {
            Ok(out) => expanded_one(pattern@, text@, env_view(env@)) == Ok::<Seq<char>, Seq<char>>(
                out@,
            ),
            Err(missing) => expanded_one(pattern@, text@, env_view(env@)) == Err::<
                Seq<char>,
                Seq<char>,
            >(missing.name@),
        },
{
    match references(pattern, text) {
        None => Ok(String::from_str(text)),
        Some(names) => match first_missing(&names, env) {
            Some(name) => Err(MissingVariable { name }),
            None => match replace(pattern, text, env) {
                Some(out) => Ok(out),
                None => Ok(String::from_str(text)),
            },
        },
    }
}

} // verus!
