//! Typed configuration, read from environment variables; what is missing or
//! malformed is an error.

use crate::text::{
    comma_list, comma_list_of, decimal, law_decimal_is_read_back, opt_clone, opt_view,
    parse_unsigned, parse_unsigned_text, same_text, strings_clone, views,
};
use vstd::prelude::*;

verus! {

// ---------------------------------------------------------------------------
// The environment
// ---------------------------------------------------------------------------

/// The environment variables, as pairs of name and value.
#[derive(Debug)]
pub struct Env {
    pub vars: Vec<(String, String)>,
}

/// The value of the first variable named `key`.
pub open spec fn lookup(vars: Seq<(String, String)>, key: Seq<char>) -> Option<Seq<char>>
    decreases vars.len(),
{
    if vars.len() == 0 {
        None
    } else if vars[0].0@ == key {
        Some(vars[0].1@)
    } else {
        lookup(vars.drop_first(), key)
    }
}

impl Env {
    /// The value of the variable `key`.
    pub open spec fn value(self, key: Seq<char>) -> Option<Seq<char>> {
        lookup(self.vars@, key)
    }

    /// The value of the variable `key`.
    pub fn var(&self, key: &str) -> (r: Option<String>)
        ensures
            opt_view(r) == self.value(key@),
    {
        let mut i: usize = 0;
        assert(self.vars@.skip(0) =~= self.vars@);
        while i < self.vars.len()
            invariant
                i <= self.vars@.len(),
                self.value(key@) == lookup(self.vars@.skip(i as int), key@),
            decreases self.vars@.len() - i,
        {
            assert(self.vars@.skip(i as int).drop_first() =~= self.vars@.skip(i + 1));
            if same_text(self.vars[i].0.as_str(), key) {
                return Some(self.vars[i].1.clone());
            }
            i = i + 1;
        }
        None
    }
}

/// The value of a required variable, or the text of the error.
pub open spec fn required_str(env: Env, key: Seq<char>) -> Result<Seq<char>, Seq<char>> {
    match env.value(key) {
        Some(v) => Ok(v),
        None => Err("Missing required env var: "@ + key),
    }
}

/// The value of an optional variable; an empty one counts as absent.
pub open spec fn optional_str(env: Env, key: Seq<char>) -> Option<Seq<char>> {
    match env.value(key) {
        Some(v) => if v.len() == 0 {
            None
        } else {
            Some(v)
        },
        None => None,
    }
}

/// The number that a required variable holds, at most `max`, or the text of the
/// error, in which the type of the number is called `kind`.
pub open spec fn required_number(
    env: Env,
    key: Seq<char>,
    kind: Seq<char>,
    max: nat,
) -> Result<nat, Seq<char>> {
    match required_str(env, key) {
        Ok(raw) => match parse_unsigned(raw, max) {
            Some(n) => Ok(n),
            None => Err("Invalid "@ + kind + " value for env var "@ + key + ": "@ + raw),
        },
        Err(e) => Err(e),
    }
}

/// The truth value that a required variable holds, or the text of the error.
pub open spec fn required_bool(env: Env, key: Seq<char>) -> Result<bool, Seq<char>> {
    match required_str(env, key) {
        Ok(raw) => if raw == "true"@ || raw == "1"@ || raw == "yes"@ {
            Ok(true)
        } else if raw == "false"@ || raw == "0"@ || raw == "no"@ {
            Ok(false)
        } else {
            Err(
                "Invalid bool value for env var "@ + key + ": "@ + raw
                    + " (expected true/false, 1/0, yes/no)"@,
            )
        },
        Err(e) => Err(e),
    }
}

/// The error of a result, if it is one.
pub open spec fn error_of<T>(r: Result<T, Seq<char>>) -> Option<Seq<char>> {
    match r {
        Ok(_) => None,
        Err(e) => Some(e),
    }
}

/// The first error there is.
pub open spec fn first_error(errors: Seq<Option<Seq<char>>>) -> Option<Seq<char>>
    decreases errors.len(),
{
    if errors.len() == 0 {
        None
    } else if errors[0] is Some {
        errors[0]
    } else {
        first_error(errors.drop_first())
    }
}

/// An error that no other one precedes is the first error.
pub proof fn lemma_first_error(errors: Seq<Option<Seq<char>>>, k: int)
    requires
        0 <= k < errors.len(),
        errors[k] is Some,
        forall|j: int| 0 <= j < k ==> errors[j] is None,
    ensures
        first_error(errors) == errors[k],
    decreases k,
{
    if k > 0 {
        let rest = errors.drop_first();
        assert(rest[k - 1] == errors[k]);
        assert forall|j: int| 0 <= j < k - 1 implies rest[j] is None by {
            assert(rest[j] == errors[j + 1]);
        }
        lemma_first_error(rest, k - 1);
    }
}

/// Where there is no error, there is no first one.
pub proof fn lemma_no_error(errors: Seq<Option<Seq<char>>>)
    requires
        forall|j: int| 0 <= j < errors.len() ==> errors[j] is None,
    ensures
        first_error(errors) is None,
    decreases errors.len(),
{
    if errors.len() > 0 {
        let rest = errors.drop_first();
        assert forall|j: int| 0 <= j < rest.len() implies rest[j] is None by {
            assert(rest[j] == errors[j + 1]);
        }
        lemma_no_error(rest);
    }
}

/// The value of a required variable.
pub fn env_required_str(env: &Env, key: &str) -> (r: Result<String, String>)
    ensures
        match r {
            Ok(v) => required_str(*env, key@) == Ok::<Seq<char>, Seq<char>>(v@),
            Err(e) => required_str(*env, key@) == Err::<Seq<char>, Seq<char>>(e@),
        },
        match env.value(key@) {
            Some(v) => r matches Ok(x) && x@ == v,
            None => r matches Err(e) && e@ == "Missing required env var: "@ + key@,
        },
{
    match env.var(key) {
        Some(v) => Ok(v),
        None => Err("Missing required env var: ".to_owned().concat(key)),
    }
}

/// The value of an optional variable; an empty one counts as absent.
pub fn env_opt(env: &Env, key: &str) -> (r: Option<String>)
    ensures
        opt_view(r) == optional_str(*env, key@),
        r matches Some(v) ==> v@.len() > 0 && env.value(key@) == Some(v@),
        r is None ==> (env.value(key@) matches Some(v) ==> v.len() == 0),
{
    match env.var(key) {
        Some(v) => if v.as_str().is_empty() {
            None
        } else {
            Some(v)
        },
        None => None,
    }
}

/// The number that a required variable holds.
fn env_required_number(env: &Env, key: &str, kind: &str, max: u64) -> (r: Result<u64, String>)
    ensures
        match r {
            Ok(n) => n <= max && required_number(*env, key@, kind@, max as nat) == Ok::<
                nat,
                Seq<char>,
            >(n as nat),
            Err(e) => required_number(*env, key@, kind@, max as nat) == Err::<nat, Seq<char>>(
                e@,
            ),
        },
{
    let raw = match env_required_str(env, key) {
        Ok(raw) => raw,
        Err(e) => {
            return Err(e);
        },
    };
    match parse_unsigned_text(raw.as_str(), max) {
        Some(n) => Ok(n),
        None => {
            let head = "Invalid ".to_owned().concat(kind).concat(" value for env var ");
            Err(head.concat(key).concat(": ").concat(raw.as_str()))
        },
    }
}

/// The `u16` that a required variable holds.
pub fn env_required_u16(env: &Env, key: &str) -> (r: Result<u16, String>)
    ensures
        match r {
            Ok(n) => required_number(*env, key@, "u16"@, u16::MAX as nat) == Ok::<nat, Seq<char>>(
                n as nat,
            ),
            Err(e) => required_number(*env, key@, "u16"@, u16::MAX as nat) == Err::<nat, Seq<char>>(
                e@,
            ),
        },
{
    match env_required_number(env, key, "u16", u16::MAX as u64) {
        Ok(n) => Ok(n as u16),
        Err(e) => Err(e),
    }
}

/// The `u32` that a required variable holds.
pub fn env_required_u32(env: &Env, key: &str) -> (r: Result<u32, String>)
    ensures
        match r {
            Ok(n) => required_number(*env, key@, "u32"@, u32::MAX as nat) == Ok::<nat, Seq<char>>(
                n as nat,
            ),
            Err(e) => required_number(*env, key@, "u32"@, u32::MAX as nat) == Err::<nat, Seq<char>>(
                e@,
            ),
        },
{
    match env_required_number(env, key, "u32", u32::MAX as u64) {
        Ok(n) => Ok(n as u32),
        Err(e) => Err(e),
    }
}

/// The `u64` that a required variable holds.
pub fn env_required_u64(env: &Env, key: &str) -> (r: Result<u64, String>)
    ensures
        match r {
            Ok(n) => required_number(*env, key@, "u64"@, u64::MAX as nat) == Ok::<nat, Seq<char>>(
                n as nat,
            ),
            Err(e) => required_number(*env, key@, "u64"@, u64::MAX as nat) == Err::<nat, Seq<char>>(
                e@,
            ),
        },
{
    match env_required_number(env, key, "u64", u64::MAX) {
        Ok(n) => Ok(n),
        Err(e) => Err(e),
    }
}

/// The `usize` that a required variable holds.
pub fn env_required_usize(env: &Env, key: &str) -> (r: Result<usize, String>)
    ensures
        match r {
            Ok(n) => required_number(*env, key@, "usize"@, usize::MAX as nat) == Ok::<nat, Seq<char>>(
                n as nat,
            ),
            Err(e) => required_number(*env, key@, "usize"@, usize::MAX as nat) == Err::<nat, Seq<char>>(
                e@,
            ),
        },
{
    match env_required_number(env, key, "usize", usize::MAX as u64) {
        Ok(n) => Ok(n as usize),
        Err(e) => Err(e),
    }
}

/// The truth value that a required variable holds.
pub fn env_required_bool(env: &Env, key: &str) -> (r: Result<bool, String>)
    ensures
        match r {
            Ok(b) => required_bool(*env, key@) == Ok::<bool, Seq<char>>(b),
            Err(e) => required_bool(*env, key@) == Err::<bool, Seq<char>>(e@),
        },
        env.value(key@) is None ==> (r matches Err(e) && e@ == "Missing required env var: "@ + key@),
        env.value(key@) matches Some(v) ==> (r matches Err(e) ==> e@
            == "Invalid bool value for env var "@ + key@ + ": "@ + v
            + " (expected true/false, 1/0, yes/no)"@),
        env.value(key@) matches Some(v) ==> {
            &&& v == "true"@ || v == "1"@ || v == "yes"@ ==> r == Ok::<bool, String>(true)
            &&& (r matches Ok(b) ==> (b <==> v == "true"@ || v == "1"@ || v == "yes"@))
            &&& (r is Ok <==> v == "true"@ || v == "1"@ || v == "yes"@ || v == "false"@ || v
                == "0"@ || v == "no"@)
        },
{
    let raw = match env_required_str(env, key) {
        Ok(raw) => raw,
        Err(e) => {
            return Err(e);
        },
    };
    let text = raw.as_str();
    if same_text(text, "true") || same_text(text, "1") || same_text(text, "yes") {
        Ok(true)
    } else if same_text(text, "false") || same_text(text, "0") || same_text(text, "no") {
        Ok(false)
    } else {
        let head = "Invalid bool value for env var ".to_owned().concat(key).concat(": ");
        Err(head.concat(text).concat(" (expected true/false, 1/0, yes/no)"))
    }
}

// ---------------------------------------------------------------------------
// The HTTP server
// ---------------------------------------------------------------------------

/// The HTTP server.
#[derive(Debug)]
pub struct ServerConfig {
    pub host: String,
    pub port: u16,
    pub cors_allow_origins: Vec<String>,
}

/// The error that the first bad variable of `ServerConfig` gives.
pub open spec fn server_error(env: Env) -> Option<Seq<char>> {
    first_error(server_errors(env))
}

/// The errors of the required variables of `ServerConfig`, in the order in which
/// they are read.
pub open spec fn server_errors(env: Env) -> Seq<Option<Seq<char>>> {
    seq![
        error_of(required_str(env, "HOST"@)),
        error_of(required_number(env, "PORT"@, "u16"@, u16::MAX as nat)),
    ]
}

impl ServerConfig {
    /// Each field holds the value of its variable.
    pub open spec fn holds(self, env: Env) -> bool {
        &&& required_str(env, "HOST"@) == Ok::<Seq<char>, Seq<char>>(self.host@)
        &&& required_number(env, "PORT"@, "u16"@, u16::MAX as nat) == Ok::<nat, Seq<char>>(self.port as nat)
        &&& views(self.cors_allow_origins@) == (match optional_str(env, "CORS_ALLOW_ORIGINS"@) {
            Some(raw) => comma_list(raw),
            None => Seq::empty(),
        })
    }

    /// Reads the variables; the first bad one is the error.
    pub fn from_env(env: &Env) -> (r: Result<Self, String>)
        ensures
            match r {
                Ok(c) => server_error(*env) is None && c.holds(*env),
                Err(e) => server_error(*env) == Some(e@),
            },
    {
        let ghost errors = server_errors(*env);
        let cors_allow_origins = match env_opt(env, "CORS_ALLOW_ORIGINS") {
            Some(raw) => comma_list_of(raw.as_str()),
            None => Vec::new(),
        };
        assert(optional_str(*env, "CORS_ALLOW_ORIGINS"@) is None ==> views(cors_allow_origins@) =~= Seq::empty());
        let host = match env_required_str(env, "HOST") {
            Ok(v) => v,
            Err(e) => {
                proof {
                    lemma_first_error(errors, 0);
                }
                return Err(e);
            },
        };
        let port: u16 = match env_required_u16(env, "PORT") {
            Ok(v) => v,
            Err(e) => {
                proof {
                    lemma_first_error(errors, 1);
                }
                return Err(e);
            },
        };
        proof {
            lemma_no_error(errors);
        }
        Ok(
            ServerConfig { host, port, cors_allow_origins },
        )
    }
}

impl Clone for ServerConfig {
    /// A copy with the same value.
    fn clone(&self) -> (r: Self)
        ensures
            r.host == self.host,
            r.port == self.port,
            r.cors_allow_origins@ == self.cors_allow_origins@,
    {
        ServerConfig {
            host: self.host.clone(),
            port: self.port,
            cors_allow_origins: strings_clone(&self.cors_allow_origins),
        }
    }
}

impl ServerConfig {
    /// The text of the address to listen on: host and port.
    pub fn addr(&self) -> (r: String)
        ensures
            r@ == self.host@ + ":"@ + crate::text::decimal(self.port as nat),
    {
        let port = crate::text::decimal_text(self.port as u64);
        self.host.clone().concat(":").concat(port.as_str())
    }
}

// ---------------------------------------------------------------------------
// The PostgreSQL database
// ---------------------------------------------------------------------------

/// The PostgreSQL database.
#[derive(Debug)]
pub struct DatabaseConfig {
    pub host: String,
    pub port: u16,
    pub database: String,
    pub user: String,
    pub password: String,
    pub max_connections: usize,
}

/// The error that the first bad variable of `DatabaseConfig` gives.
pub open spec fn database_error(env: Env) -> Option<Seq<char>> {
    first_error(database_errors(env))
}

/// The errors of the required variables of `DatabaseConfig`, in the order in which
/// they are read.
pub open spec fn database_errors(env: Env) -> Seq<Option<Seq<char>>> {
    seq![
        error_of(required_str(env, "POSTGRES_HOST"@)),
        error_of(required_number(env, "POSTGRES_PORT"@, "u16"@, u16::MAX as nat)),
        error_of(required_str(env, "POSTGRES_DB"@)),
        error_of(required_str(env, "POSTGRES_USER"@)),
        error_of(required_str(env, "POSTGRES_PASSWORD"@)),
        error_of(required_number(env, "DATABASE_MAX_CONNECTIONS"@, "usize"@, usize::MAX as nat)),
    ]
}

impl DatabaseConfig {
    /// Each field holds the value of its variable.
    pub open spec fn holds(self, env: Env) -> bool {
        &&& required_str(env, "POSTGRES_HOST"@) == Ok::<Seq<char>, Seq<char>>(self.host@)
        &&& required_number(env, "POSTGRES_PORT"@, "u16"@, u16::MAX as nat) == Ok::<nat, Seq<char>>(self.port as nat)
        &&& required_str(env, "POSTGRES_DB"@) == Ok::<Seq<char>, Seq<char>>(self.database@)
        &&& required_str(env, "POSTGRES_USER"@) == Ok::<Seq<char>, Seq<char>>(self.user@)
        &&& required_str(env, "POSTGRES_PASSWORD"@) == Ok::<Seq<char>, Seq<char>>(self.password@)
        &&& required_number(env, "DATABASE_MAX_CONNECTIONS"@, "usize"@, usize::MAX as nat) == Ok::<nat, Seq<char>>(self.max_connections as nat)
    }

    /// Reads the variables; the first bad one is the error.
    pub fn from_env(env: &Env) -> (r: Result<Self, String>)
        ensures
            match r {
                Ok(c) => database_error(*env) is None && c.holds(*env),
                Err(e) => database_error(*env) == Some(e@),
            },
    {
        let ghost errors = database_errors(*env);
        let host = match env_required_str(env, "POSTGRES_HOST") {
            Ok(v) => v,
            Err(e) => {
                proof {
                    lemma_first_error(errors, 0);
                }
                return Err(e);
            },
        };
        let port: u16 = match env_required_u16(env, "POSTGRES_PORT") {
            Ok(v) => v,
            Err(e) => {
                proof {
                    lemma_first_error(errors, 1);
                }
                return Err(e);
            },
        };
        let database = match env_required_str(env, "POSTGRES_DB") {
            Ok(v) => v,
            Err(e) => {
                proof {
                    lemma_first_error(errors, 2);
                }
                return Err(e);
            },
        };
        let user = match env_required_str(env, "POSTGRES_USER") {
            Ok(v) => v,
            Err(e) => {
                proof {
                    lemma_first_error(errors, 3);
                }
                return Err(e);
            },
        };
        let password = match env_required_str(env, "POSTGRES_PASSWORD") {
            Ok(v) => v,
            Err(e) => {
                proof {
                    lemma_first_error(errors, 4);
                }
                return Err(e);
            },
        };
        let max_connections: usize = match env_required_usize(env, "DATABASE_MAX_CONNECTIONS") {
            Ok(v) => v,
            Err(e) => {
                proof {
                    lemma_first_error(errors, 5);
                }
                return Err(e);
            },
        };
        proof {
            lemma_no_error(errors);
        }
        Ok(
            DatabaseConfig { host, port, database, user, password, max_connections },
        )
    }
}

impl Clone for DatabaseConfig {
    /// A copy with the same value.
    fn clone(&self) -> (r: Self)
        ensures
            r == *self,
    {
        DatabaseConfig {
            host: self.host.clone(),
            port: self.port,
            database: self.database.clone(),
            user: self.user.clone(),
            password: self.password.clone(),
            max_connections: self.max_connections,
        }
    }
}

// ---------------------------------------------------------------------------
// The Redis servers
// ---------------------------------------------------------------------------

/// The Redis servers.
#[derive(Debug)]
pub struct RedisConfig {
    pub url: String,
    pub rate_limit_url: String,
}

/// The error that the first bad variable of `RedisConfig` gives.
pub open spec fn redis_error(env: Env) -> Option<Seq<char>> {
    first_error(redis_errors(env))
}

/// The errors of the required variables of `RedisConfig`, in the order in which
/// they are read.
pub open spec fn redis_errors(env: Env) -> Seq<Option<Seq<char>>> {
    seq![
        error_of(required_str(env, "REDIS_URL"@)),
        error_of(required_str(env, "REDIS_RATE_LIMIT_URL"@)),
    ]
}

impl RedisConfig {
    /// Each field holds the value of its variable.
    pub open spec fn holds(self, env: Env) -> bool {
        &&& required_str(env, "REDIS_URL"@) == Ok::<Seq<char>, Seq<char>>(self.url@)
        &&& required_str(env, "REDIS_RATE_LIMIT_URL"@) == Ok::<Seq<char>, Seq<char>>(self.rate_limit_url@)
    }

    /// Reads the variables; the first bad one is the error.
    pub fn from_env(env: &Env) -> (r: Result<Self, String>)
        ensures
            match r {
                Ok(c) => redis_error(*env) is None && c.holds(*env),
                Err(e) => redis_error(*env) == Some(e@),
            },
    {
        let ghost errors = redis_errors(*env);
        let url = match env_required_str(env, "REDIS_URL") {
            Ok(v) => v,
            Err(e) => {
                proof {
                    lemma_first_error(errors, 0);
                }
                return Err(e);
            },
        };
        let rate_limit_url = match env_required_str(env, "REDIS_RATE_LIMIT_URL") {
            Ok(v) => v,
            Err(e) => {
                proof {
                    lemma_first_error(errors, 1);
                }
                return Err(e);
            },
        };
        proof {
            lemma_no_error(errors);
        }
        Ok(
            RedisConfig { url, rate_limit_url },
        )
    }
}

impl Clone for RedisConfig {
    /// A copy with the same value.
    fn clone(&self) -> (r: Self)
        ensures
            r == *self,
    {
        RedisConfig {
            url: self.url.clone(),
            rate_limit_url: self.rate_limit_url.clone(),
        }
    }
}

// ---------------------------------------------------------------------------
// The language model
// ---------------------------------------------------------------------------

/// The language model, behind an OpenAI-compatible interface.
#[derive(Debug)]
pub struct LlmConfig {
    /// Where the interface is.
    pub base_url: String,
    pub api_key: String,
    pub model_name: String,
    pub embedding_model: Option<String>,
    /// Where Ollama is; goes before `base_url` where it is set.
    pub ollama_base_url: Option<String>,
    pub timeout_seconds: u64,
    pub max_retries: u32,
    pub max_input_chars: usize,
}

/// The base URL of the language model, or the text of the error.
pub open spec fn llm_base_url(env: Env) -> Result<Seq<char>, Seq<char>> {
    match optional_str(env, "OLLAMA_BASE_URL"@) {
        Some(o) => Ok(o),
        None => required_str(env, "OPENAI_BASE_URL"@),
    }
}

/// How many characters the language model is given at most, or the text of the
/// error.
pub open spec fn llm_max_input_chars(env: Env) -> Result<nat, Seq<char>> {
    match required_number(env, "LLM_MAX_INPUT_CHARS"@, "usize"@, usize::MAX as nat) {
        Ok(n) => if n == 0 {
            Err("LLM_MAX_INPUT_CHARS must be > 0"@)
        } else {
            Ok(n)
        },
        Err(e) => Err(e),
    }
}

/// The error that the first bad variable of `LlmConfig` gives.
pub open spec fn llm_error(env: Env) -> Option<Seq<char>> {
    first_error(llm_errors(env))
}

/// The errors of the required variables of `LlmConfig`, in the order in which
/// they are read.
pub open spec fn llm_errors(env: Env) -> Seq<Option<Seq<char>>> {
    seq![
        error_of(llm_base_url(env)),
        error_of(required_str(env, "MODEL_NAME"@)),
        error_of(required_number(env, "LLM_TIMEOUT_SECONDS"@, "u64"@, u64::MAX as nat)),
        error_of(required_number(env, "LLM_MAX_RETRIES"@, "u32"@, u32::MAX as nat)),
        error_of(llm_max_input_chars(env)),
    ]
}

impl LlmConfig {
    /// Each field holds the value of its variable.
    pub open spec fn holds(self, env: Env) -> bool {
        &&& llm_base_url(env) == Ok::<Seq<char>, Seq<char>>(self.base_url@)
        &&& self.api_key@ == (match optional_str(env, "OPENAI_API_KEY"@) {
            Some(k) => k,
            None => Seq::empty(),
        })
        &&& required_str(env, "MODEL_NAME"@) == Ok::<Seq<char>, Seq<char>>(self.model_name@)
        &&& optional_str(env, "MODEL_EMBEDDING_NAME"@) == opt_view(self.embedding_model)
        &&& optional_str(env, "OLLAMA_BASE_URL"@) == opt_view(self.ollama_base_url)
        &&& required_number(env, "LLM_TIMEOUT_SECONDS"@, "u64"@, u64::MAX as nat) == Ok::<
            nat,
            Seq<char>,
        >(self.timeout_seconds as nat)
        &&& required_number(env, "LLM_MAX_RETRIES"@, "u32"@, u32::MAX as nat) == Ok::<
            nat,
            Seq<char>,
        >(self.max_retries as nat)
        &&& llm_max_input_chars(env) == Ok::<nat, Seq<char>>(self.max_input_chars as nat)
    }

    /// Reads the variables; the first bad one is the error.
    pub fn from_env(env: &Env) -> (r: Result<Self, String>)
        ensures
            match r {
                Ok(c) => llm_error(*env) is None && c.holds(*env),
                Err(e) => llm_error(*env) == Some(e@),
            },
    {
        let ghost errors = llm_errors(*env);
        let ollama = env_opt(env, "OLLAMA_BASE_URL");
        let base_url = match &ollama {
            Some(o) => o.clone(),
            None => match env_required_str(env, "OPENAI_BASE_URL") {
                Ok(v) => v,
                Err(e) => {
                    proof {
                        lemma_first_error(errors, 0);
                    }
                    return Err(e);
                },
            },
        };
        let api_key = match env_opt(env, "OPENAI_API_KEY") {
            Some(k) => k,
            None => String::new(),
        };
        let model_name = match env_required_str(env, "MODEL_NAME") {
            Ok(v) => v,
            Err(e) => {
                proof {
                    lemma_first_error(errors, 1);
                }
                return Err(e);
            },
        };
        let embedding_model = env_opt(env, "MODEL_EMBEDDING_NAME");
        let timeout_seconds: u64 = match env_required_u64(env, "LLM_TIMEOUT_SECONDS") {
            Ok(v) => v,
            Err(e) => {
                proof {
                    lemma_first_error(errors, 2);
                }
                return Err(e);
            },
        };
        let max_retries: u32 = match env_required_u32(env, "LLM_MAX_RETRIES") {
            Ok(v) => v,
            Err(e) => {
                proof {
                    lemma_first_error(errors, 3);
                }
                return Err(e);
            },
        };
        let max_input_chars: usize = match env_required_usize(env, "LLM_MAX_INPUT_CHARS") {
            Ok(v) => v,
            Err(e) => {
                proof {
                    lemma_first_error(errors, 4);
                }
                return Err(e);
            },
        };
        if max_input_chars == 0 {
            proof {
                lemma_first_error(errors, 4);
            }
            return Err("LLM_MAX_INPUT_CHARS must be > 0".to_owned());
        }
        proof {
            lemma_no_error(errors);
        }
        Ok(
            LlmConfig {
                base_url,
                api_key,
                model_name,
                embedding_model,
                ollama_base_url: ollama,
                timeout_seconds,
                max_retries,
                max_input_chars,
            },
        )
    }

    /// There is a key, or an Ollama server.
    pub open spec fn configured(self) -> bool {
        self.api_key@.len() > 0 || self.ollama_base_url is Some
    }

    /// Whether there is a key, or an Ollama server.
    pub fn is_configured(&self) -> (r: bool)
        ensures
            r == self.configured(),
            r <==> self.api_key@.len() > 0 || self.ollama_base_url is Some,
    {
        !self.api_key.as_str().is_empty() || self.ollama_base_url.is_some()
    }
}

impl Clone for LlmConfig {
    /// A copy with the same value.
    fn clone(&self) -> (r: Self)
        ensures
            r == *self,
    {
        LlmConfig {
            base_url: self.base_url.clone(),
            api_key: self.api_key.clone(),
            model_name: self.model_name.clone(),
            embedding_model: opt_clone(&self.embedding_model),
            ollama_base_url: opt_clone(&self.ollama_base_url),
            timeout_seconds: self.timeout_seconds,
            max_retries: self.max_retries,
            max_input_chars: self.max_input_chars,
        }
    }
}

// ---------------------------------------------------------------------------
// The crawler
// ---------------------------------------------------------------------------

/// The crawler.
#[derive(Debug)]
pub struct CrawlerConfig {
    pub max_depth: u32,
    pub max_pages: u32,
    pub concurrent_requests: u32,
    pub request_timeout_seconds: u64,
    pub user_agent: String,
    pub respect_robots_txt: bool,
    pub playwright_url: Option<String>,
    pub browser_pool_size: u32,
}

/// The error that the first bad variable of `CrawlerConfig` gives.
pub open spec fn crawler_error(env: Env) -> Option<Seq<char>> {
    first_error(crawler_errors(env))
}

/// The errors of the required variables of `CrawlerConfig`, in the order in which
/// they are read.
pub open spec fn crawler_errors(env: Env) -> Seq<Option<Seq<char>>> {
    seq![
        error_of(required_number(env, "CRAWLER_MAX_DEPTH"@, "u32"@, u32::MAX as nat)),
        error_of(required_number(env, "CRAWLER_MAX_PAGES"@, "u32"@, u32::MAX as nat)),
        error_of(required_number(env, "CRAWL_CONCURRENT_REQUESTS"@, "u32"@, u32::MAX as nat)),
        error_of(required_number(env, "CRAWLER_REQUEST_TIMEOUT_SECONDS"@, "u64"@, u64::MAX as nat)),
        error_of(required_str(env, "CRAWLER_USER_AGENT"@)),
        error_of(required_bool(env, "CRAWLER_RESPECT_ROBOTS_TXT"@)),
        error_of(required_number(env, "BROWSER_POOL_SIZE"@, "u32"@, u32::MAX as nat)),
    ]
}

impl CrawlerConfig {
    /// Each field holds the value of its variable.
    pub open spec fn holds(self, env: Env) -> bool {
        &&& required_number(env, "CRAWLER_MAX_DEPTH"@, "u32"@, u32::MAX as nat) == Ok::<nat, Seq<char>>(self.max_depth as nat)
        &&& required_number(env, "CRAWLER_MAX_PAGES"@, "u32"@, u32::MAX as nat) == Ok::<nat, Seq<char>>(self.max_pages as nat)
        &&& required_number(env, "CRAWL_CONCURRENT_REQUESTS"@, "u32"@, u32::MAX as nat) == Ok::<nat, Seq<char>>(self.concurrent_requests as nat)
        &&& required_number(env, "CRAWLER_REQUEST_TIMEOUT_SECONDS"@, "u64"@, u64::MAX as nat) == Ok::<nat, Seq<char>>(self.request_timeout_seconds as nat)
        &&& required_str(env, "CRAWLER_USER_AGENT"@) == Ok::<Seq<char>, Seq<char>>(self.user_agent@)
        &&& required_bool(env, "CRAWLER_RESPECT_ROBOTS_TXT"@) == Ok::<bool, Seq<char>>(self.respect_robots_txt)
        &&& optional_str(env, "PLAYWRIGHT_MICROSERVICE_URL"@) == opt_view(self.playwright_url)
        &&& required_number(env, "BROWSER_POOL_SIZE"@, "u32"@, u32::MAX as nat) == Ok::<nat, Seq<char>>(self.browser_pool_size as nat)
    }

    /// Reads the variables; the first bad one is the error.
    pub fn from_env(env: &Env) -> (r: Result<Self, String>)
        ensures
            match r {
                Ok(c) => crawler_error(*env) is None && c.holds(*env),
                Err(e) => crawler_error(*env) == Some(e@),
            },
    {
        let ghost errors = crawler_errors(*env);
        let max_depth: u32 = match env_required_u32(env, "CRAWLER_MAX_DEPTH") {
            Ok(v) => v,
            Err(e) => {
                proof {
                    lemma_first_error(errors, 0);
                }
                return Err(e);
            },
        };
        let max_pages: u32 = match env_required_u32(env, "CRAWLER_MAX_PAGES") {
            Ok(v) => v,
            Err(e) => {
                proof {
                    lemma_first_error(errors, 1);
                }
                return Err(e);
            },
        };
        let concurrent_requests: u32 = match env_required_u32(env, "CRAWL_CONCURRENT_REQUESTS") {
            Ok(v) => v,
            Err(e) => {
                proof {
                    lemma_first_error(errors, 2);
                }
                return Err(e);
            },
        };
        let request_timeout_seconds: u64 = match env_required_u64(env, "CRAWLER_REQUEST_TIMEOUT_SECONDS") {
            Ok(v) => v,
            Err(e) => {
                proof {
                    lemma_first_error(errors, 3);
                }
                return Err(e);
            },
        };
        let user_agent = match env_required_str(env, "CRAWLER_USER_AGENT") {
            Ok(v) => v,
            Err(e) => {
                proof {
                    lemma_first_error(errors, 4);
                }
                return Err(e);
            },
        };
        let respect_robots_txt = match env_required_bool(env, "CRAWLER_RESPECT_ROBOTS_TXT") {
            Ok(v) => v,
            Err(e) => {
                proof {
                    lemma_first_error(errors, 5);
                }
                return Err(e);
            },
        };
        let playwright_url = env_opt(env, "PLAYWRIGHT_MICROSERVICE_URL");
        let browser_pool_size: u32 = match env_required_u32(env, "BROWSER_POOL_SIZE") {
            Ok(v) => v,
            Err(e) => {
                proof {
                    lemma_first_error(errors, 6);
                }
                return Err(e);
            },
        };
        proof {
            lemma_no_error(errors);
        }
        Ok(
            CrawlerConfig { max_depth, max_pages, concurrent_requests, request_timeout_seconds, user_agent, respect_robots_txt, playwright_url, browser_pool_size },
        )
    }
}

impl Clone for CrawlerConfig {
    /// A copy with the same value.
    fn clone(&self) -> (r: Self)
        ensures
            r == *self,
    {
        CrawlerConfig {
            max_depth: self.max_depth,
            max_pages: self.max_pages,
            concurrent_requests: self.concurrent_requests,
            request_timeout_seconds: self.request_timeout_seconds,
            user_agent: self.user_agent.clone(),
            respect_robots_txt: self.respect_robots_txt,
            playwright_url: opt_clone(&self.playwright_url),
            browser_pool_size: self.browser_pool_size,
        }
    }
}

// ---------------------------------------------------------------------------
// The background workers
// ---------------------------------------------------------------------------

/// The background workers.
#[derive(Debug)]
pub struct WorkerConfig {
    pub num_workers: u32,
    pub max_concurrent_jobs: u32,
    pub job_timeout_seconds: u64,
    pub max_stalls: u32,
}

/// The error that the first bad variable of `WorkerConfig` gives.
pub open spec fn worker_error(env: Env) -> Option<Seq<char>> {
    first_error(worker_errors(env))
}

/// The errors of the required variables of `WorkerConfig`, in the order in which
/// they are read.
pub open spec fn worker_errors(env: Env) -> Seq<Option<Seq<char>>> {
    seq![
        error_of(required_number(env, "NUM_WORKERS_PER_QUEUE"@, "u32"@, u32::MAX as nat)),
        error_of(required_number(env, "MAX_CONCURRENT_JOBS"@, "u32"@, u32::MAX as nat)),
        error_of(required_number(env, "WORKER_JOB_TIMEOUT_SECONDS"@, "u64"@, u64::MAX as nat)),
        error_of(required_number(env, "WORKER_MAX_STALLS"@, "u32"@, u32::MAX as nat)),
    ]
}

impl WorkerConfig {
    /// Each field holds the value of its variable.
    pub open spec fn holds(self, env: Env) -> bool {
        &&& required_number(env, "NUM_WORKERS_PER_QUEUE"@, "u32"@, u32::MAX as nat) == Ok::<nat, Seq<char>>(self.num_workers as nat)
        &&& required_number(env, "MAX_CONCURRENT_JOBS"@, "u32"@, u32::MAX as nat) == Ok::<nat, Seq<char>>(self.max_concurrent_jobs as nat)
        &&& required_number(env, "WORKER_JOB_TIMEOUT_SECONDS"@, "u64"@, u64::MAX as nat) == Ok::<nat, Seq<char>>(self.job_timeout_seconds as nat)
        &&& required_number(env, "WORKER_MAX_STALLS"@, "u32"@, u32::MAX as nat) == Ok::<nat, Seq<char>>(self.max_stalls as nat)
    }

    /// Reads the variables; the first bad one is the error.
    pub fn from_env(env: &Env) -> (r: Result<Self, String>)
        ensures
            match r {
                Ok(c) => worker_error(*env) is None && c.holds(*env),
                Err(e) => worker_error(*env) == Some(e@),
            },
    {
        let ghost errors = worker_errors(*env);
        let num_workers: u32 = match env_required_u32(env, "NUM_WORKERS_PER_QUEUE") {
            Ok(v) => v,
            Err(e) => {
                proof {
                    lemma_first_error(errors, 0);
                }
                return Err(e);
            },
        };
        let max_concurrent_jobs: u32 = match env_required_u32(env, "MAX_CONCURRENT_JOBS") {
            Ok(v) => v,
            Err(e) => {
                proof {
                    lemma_first_error(errors, 1);
                }
                return Err(e);
            },
        };
        let job_timeout_seconds: u64 = match env_required_u64(env, "WORKER_JOB_TIMEOUT_SECONDS") {
            Ok(v) => v,
            Err(e) => {
                proof {
                    lemma_first_error(errors, 2);
                }
                return Err(e);
            },
        };
        let max_stalls: u32 = match env_required_u32(env, "WORKER_MAX_STALLS") {
            Ok(v) => v,
            Err(e) => {
                proof {
                    lemma_first_error(errors, 3);
                }
                return Err(e);
            },
        };
        proof {
            lemma_no_error(errors);
        }
        Ok(
            WorkerConfig { num_workers, max_concurrent_jobs, job_timeout_seconds, max_stalls },
        )
    }
}

impl Clone for WorkerConfig {
    /// A copy with the same value.
    fn clone(&self) -> (r: Self)
        ensures
            r == *self,
    {
        WorkerConfig {
            num_workers: self.num_workers,
            max_concurrent_jobs: self.max_concurrent_jobs,
            job_timeout_seconds: self.job_timeout_seconds,
            max_stalls: self.max_stalls,
        }
    }
}

// ---------------------------------------------------------------------------
// Who may use the service
// ---------------------------------------------------------------------------

/// Who may use the service.
#[derive(Debug)]
pub struct AuthConfig {
    /// When false, every request is let in.
    pub use_db_authentication: bool,
    /// A static key for local tests.
    pub test_api_key: Option<String>,
    /// The key of the administration of the queue.
    pub bull_auth_key: String,
    /// Whether webhooks may go to local addresses.
    pub allow_local_webhooks: bool,
}

/// The error that the first bad variable of `AuthConfig` gives.
pub open spec fn auth_error(env: Env) -> Option<Seq<char>> {
    first_error(auth_errors(env))
}

/// The errors of the required variables of `AuthConfig`, in the order in which
/// they are read.
pub open spec fn auth_errors(env: Env) -> Seq<Option<Seq<char>>> {
    seq![
        error_of(required_bool(env, "USE_DB_AUTHENTICATION"@)),
        error_of(required_str(env, "BULL_AUTH_KEY"@)),
        error_of(required_bool(env, "ALLOW_LOCAL_WEBHOOKS"@)),
    ]
}

impl AuthConfig {
    /// Each field holds the value of its variable.
    pub open spec fn holds(self, env: Env) -> bool {
        &&& required_bool(env, "USE_DB_AUTHENTICATION"@) == Ok::<bool, Seq<char>>(self.use_db_authentication)
        &&& optional_str(env, "TEST_API_KEY"@) == opt_view(self.test_api_key)
        &&& required_str(env, "BULL_AUTH_KEY"@) == Ok::<Seq<char>, Seq<char>>(self.bull_auth_key@)
        &&& required_bool(env, "ALLOW_LOCAL_WEBHOOKS"@) == Ok::<bool, Seq<char>>(self.allow_local_webhooks)
    }

    /// Reads the variables; the first bad one is the error.
    pub fn from_env(env: &Env) -> (r: Result<Self, String>)
        ensures
            match r {
                Ok(c) => auth_error(*env) is None && c.holds(*env),
                Err(e) => auth_error(*env) == Some(e@),
            },
    {
        let ghost errors = auth_errors(*env);
        let use_db_authentication = match env_required_bool(env, "USE_DB_AUTHENTICATION") {
            Ok(v) => v,
            Err(e) => {
                proof {
                    lemma_first_error(errors, 0);
                }
                return Err(e);
            },
        };
        let test_api_key = env_opt(env, "TEST_API_KEY");
        let bull_auth_key = match env_required_str(env, "BULL_AUTH_KEY") {
            Ok(v) => v,
            Err(e) => {
                proof {
                    lemma_first_error(errors, 1);
                }
                return Err(e);
            },
        };
        let allow_local_webhooks = match env_required_bool(env, "ALLOW_LOCAL_WEBHOOKS") {
            Ok(v) => v,
            Err(e) => {
                proof {
                    lemma_first_error(errors, 2);
                }
                return Err(e);
            },
        };
        proof {
            lemma_no_error(errors);
        }
        Ok(
            AuthConfig { use_db_authentication, test_api_key, bull_auth_key, allow_local_webhooks },
        )
    }
}

impl Clone for AuthConfig {
    /// A copy with the same value.
    fn clone(&self) -> (r: Self)
        ensures
            r == *self,
    {
        AuthConfig {
            use_db_authentication: self.use_db_authentication,
            test_api_key: opt_clone(&self.test_api_key),
            bull_auth_key: self.bull_auth_key.clone(),
            allow_local_webhooks: self.allow_local_webhooks,
        }
    }
}

// ---------------------------------------------------------------------------
// The proxy that pages are fetched through
// ---------------------------------------------------------------------------

/// The proxy that pages are fetched through.
#[derive(Debug)]
pub struct ProxyConfig {
    pub server: Option<String>,
    pub username: Option<String>,
    pub password: Option<String>,
}

impl ProxyConfig {
    /// Each field holds the value of its variable.
    pub open spec fn holds(self, env: Env) -> bool {
        &&& optional_str(env, "PROXY_SERVER"@) == opt_view(self.server)
        &&& optional_str(env, "PROXY_USERNAME"@) == opt_view(self.username)
        &&& optional_str(env, "PROXY_PASSWORD"@) == opt_view(self.password)
    }

    /// Reads the variables, each of which may be absent.
    pub fn from_env(env: &Env) -> (r: Self)
        ensures
            r.holds(*env),
    {
        ProxyConfig {
            server: env_opt(env, "PROXY_SERVER"),
            username: env_opt(env, "PROXY_USERNAME"),
            password: env_opt(env, "PROXY_PASSWORD"),
        }
    }
}

impl Clone for ProxyConfig {
    /// A copy with the same value.
    fn clone(&self) -> (r: Self)
        ensures
            r == *self,
    {
        ProxyConfig {
            server: opt_clone(&self.server),
            username: opt_clone(&self.username),
            password: opt_clone(&self.password),
        }
    }
}

// ---------------------------------------------------------------------------
// The search engine
// ---------------------------------------------------------------------------

/// The search engine.
#[derive(Debug)]
pub struct SearchConfig {
    /// Where SearXNG is; without it, Google is asked.
    pub searxng_endpoint: Option<String>,
    pub searxng_engines: Option<String>,
    pub searxng_categories: Option<String>,
}

impl SearchConfig {
    /// Each field holds the value of its variable.
    pub open spec fn holds(self, env: Env) -> bool {
        &&& optional_str(env, "SEARXNG_ENDPOINT"@) == opt_view(self.searxng_endpoint)
        &&& optional_str(env, "SEARXNG_ENGINES"@) == opt_view(self.searxng_engines)
        &&& optional_str(env, "SEARXNG_CATEGORIES"@) == opt_view(self.searxng_categories)
    }

    /// Reads the variables, each of which may be absent.
    pub fn from_env(env: &Env) -> (r: Self)
        ensures
            r.holds(*env),
    {
        SearchConfig {
            searxng_endpoint: env_opt(env, "SEARXNG_ENDPOINT"),
            searxng_engines: env_opt(env, "SEARXNG_ENGINES"),
            searxng_categories: env_opt(env, "SEARXNG_CATEGORIES"),
        }
    }
}

impl Clone for SearchConfig {
    /// A copy with the same value.
    fn clone(&self) -> (r: Self)
        ensures
            r == *self,
    {
        SearchConfig {
            searxng_endpoint: opt_clone(&self.searxng_endpoint),
            searxng_engines: opt_clone(&self.searxng_engines),
            searxng_categories: opt_clone(&self.searxng_categories),
        }
    }
}

// ---------------------------------------------------------------------------
// Limits on the load of the machine
// ---------------------------------------------------------------------------

/// The load, in thousandths of the whole, above which new jobs are rejected. A
/// limit below zero rejects every job.
#[derive(Debug, Clone, Copy)]
pub struct ResourceConfig {
    pub max_cpu: i64,
    pub max_ram: i64,
}

// ---------------------------------------------------------------------------
// The whole configuration
// ---------------------------------------------------------------------------

/// The whole configuration.
#[derive(Debug)]
pub struct Config {
    pub server: ServerConfig,
    pub database: DatabaseConfig,
    pub redis: RedisConfig,
    pub llm: LlmConfig,
    pub crawler: CrawlerConfig,
    pub worker: WorkerConfig,
    pub auth: AuthConfig,
    pub proxy: ProxyConfig,
    pub search: SearchConfig,
    pub resource: ResourceConfig,
}

/// The errors of the parts of the configuration, in the order in which they are
/// read.
pub open spec fn config_errors(env: Env, resource: Result<ResourceConfig, String>) -> Seq<
    Option<Seq<char>>,
> {
    seq![
        server_error(env),
        database_error(env),
        redis_error(env),
        llm_error(env),
        crawler_error(env),
        worker_error(env),
        auth_error(env),
        match resource {
            Ok(_) => None,
            Err(e) => Some(e@),
        },
    ]
}

/// The first error of the configuration.
pub open spec fn config_error(env: Env, resource: Result<ResourceConfig, String>) -> Option<
    Seq<char>,
> {
    first_error(config_errors(env, resource))
}

impl Config {
    /// Each field holds the value of its variable.
    pub open spec fn holds(self, env: Env) -> bool {
        &&& self.server.holds(env)
        &&& self.database.holds(env)
        &&& self.redis.holds(env)
        &&& self.llm.holds(env)
        &&& self.crawler.holds(env)
        &&& self.worker.holds(env)
        &&& self.auth.holds(env)
        &&& self.proxy.holds(env)
        &&& self.search.holds(env)
    }

    /// Reads the whole configuration; the first bad variable is the error. The
    /// limits on the load, which are fractions, come as they were read.
    #[verifier::spinoff_prover]
    #[verifier::rlimit(60)]
    pub fn from_env(env: &Env, resource: Result<ResourceConfig, String>) -> (r: Result<
        Self,
        String,
    >)
        ensures
            match r {
                Ok(c) => config_error(*env, resource) is None && c.holds(*env) && resource == Ok::<
                    ResourceConfig,
                    String,
                >(c.resource),
                Err(e) => config_error(*env, resource) == Some(e@),
            },
    {
        let ghost errors = config_errors(*env, resource);
        let server = match ServerConfig::from_env(env) {
            Ok(c) => c,
            Err(e) => {
                proof {
                    lemma_first_error(errors, 0);
                }
                return Err(e);
            },
        };
        let database = match DatabaseConfig::from_env(env) {
            Ok(c) => c,
            Err(e) => {
                proof {
                    lemma_first_error(errors, 1);
                }
                return Err(e);
            },
        };
        let redis = match RedisConfig::from_env(env) {
            Ok(c) => c,
            Err(e) => {
                proof {
                    lemma_first_error(errors, 2);
                }
                return Err(e);
            },
        };
        let llm = match LlmConfig::from_env(env) {
            Ok(c) => c,
            Err(e) => {
                proof {
                    lemma_first_error(errors, 3);
                }
                return Err(e);
            },
        };
        let crawler = match CrawlerConfig::from_env(env) {
            Ok(c) => c,
            Err(e) => {
                proof {
                    lemma_first_error(errors, 4);
                }
                return Err(e);
            },
        };
        let worker = match WorkerConfig::from_env(env) {
            Ok(c) => c,
            Err(e) => {
                proof {
                    lemma_first_error(errors, 5);
                }
                return Err(e);
            },
        };
        let auth = match AuthConfig::from_env(env) {
            Ok(c) => c,
            Err(e) => {
                proof {
                    lemma_first_error(errors, 6);
                }
                return Err(e);
            },
        };
        let proxy = ProxyConfig::from_env(env);
        let search = SearchConfig::from_env(env);
        let resource = match resource {
            Ok(c) => c,
            Err(e) => {
                proof {
                    lemma_first_error(errors, 7);
                }
                return Err(e);
            },
        };
        proof {
            lemma_no_error(errors);
        }
        Ok(Config { server, database, redis, llm, crawler, worker, auth, proxy, search, resource })
    }
}

// ---------------------------------------------------------------------------
// What is missing is an error
// ---------------------------------------------------------------------------

/// The variables without which no configuration is read, whatever the others hold.
pub open spec fn required_keys() -> Seq<Seq<char>> {
    seq![
        "HOST"@,
        "PORT"@,
        "POSTGRES_HOST"@,
        "POSTGRES_PORT"@,
        "POSTGRES_DB"@,
        "POSTGRES_USER"@,
        "POSTGRES_PASSWORD"@,
        "DATABASE_MAX_CONNECTIONS"@,
        "REDIS_URL"@,
        "REDIS_RATE_LIMIT_URL"@,
        "MODEL_NAME"@,
        "LLM_TIMEOUT_SECONDS"@,
        "LLM_MAX_RETRIES"@,
        "LLM_MAX_INPUT_CHARS"@,
        "CRAWLER_MAX_DEPTH"@,
        "CRAWLER_MAX_PAGES"@,
        "CRAWL_CONCURRENT_REQUESTS"@,
        "CRAWLER_REQUEST_TIMEOUT_SECONDS"@,
        "CRAWLER_USER_AGENT"@,
        "CRAWLER_RESPECT_ROBOTS_TXT"@,
        "BROWSER_POOL_SIZE"@,
        "NUM_WORKERS_PER_QUEUE"@,
        "MAX_CONCURRENT_JOBS"@,
        "WORKER_JOB_TIMEOUT_SECONDS"@,
        "WORKER_MAX_STALLS"@,
        "USE_DB_AUTHENTICATION"@,
        "BULL_AUTH_KEY"@,
        "ALLOW_LOCAL_WEBHOOKS"@,
    ]
}

/// Where there is some error, there is a first one.
proof fn lemma_some_error(errors: Seq<Option<Seq<char>>>, k: int)
    requires
        0 <= k < errors.len(),
        errors[k] is Some,
    ensures
        first_error(errors) is Some,
    decreases errors.len(),
{
    if errors[0] is None {
        assert(errors.drop_first()[k - 1] == errors[k]);
        lemma_some_error(errors.drop_first(), k - 1);
    }
}

/// Reading the configuration fails where a required variable is missing.
pub proof fn law_missing_variable_is_an_error(
    env: Env,
    resource: Result<ResourceConfig, String>,
    i: int,
)
    requires
        0 <= i < required_keys().len(),
        env.value(required_keys()[i]) is None,
    ensures
        config_error(env, resource) is Some,
{
    let errors = config_errors(env, resource);
    if i < 2 {
        lemma_some_error(server_errors(env), i);
        lemma_some_error(errors, 0);
    } else if i < 8 {
        lemma_some_error(database_errors(env), i - 2);
        lemma_some_error(errors, 1);
    } else if i < 10 {
        lemma_some_error(redis_errors(env), i - 8);
        lemma_some_error(errors, 2);
    } else if i < 14 {
        lemma_some_error(llm_errors(env), i - 9);
        lemma_some_error(errors, 3);
    } else if i < 21 {
        lemma_some_error(crawler_errors(env), i - 14);
        lemma_some_error(errors, 4);
    } else if i < 25 {
        lemma_some_error(worker_errors(env), i - 21);
        lemma_some_error(errors, 5);
    } else {
        lemma_some_error(auth_errors(env), i - 25);
        lemma_some_error(errors, 6);
    }
}

// ---------------------------------------------------------------------------
// What the configuration holds
// ---------------------------------------------------------------------------

/// A variable has the value that it is first set to, and none where it is never set.
pub proof fn law_lookup(
    before: Seq<(String, String)>,
    name: String,
    value: String,
    after: Seq<(String, String)>,
)
    requires
        forall|i: int| 0 <= i < before.len() ==> (#[trigger] before[i]).0@ != name@,
    ensures
        lookup(before + seq![(name, value)] + after, name@) == Some(value@),
        lookup(before, name@) is None,
    decreases before.len(),
{
    let all = before + seq![(name, value)] + after;
    if before.len() > 0 {
        let rest = before.drop_first();
        assert forall|i: int| 0 <= i < rest.len() implies (#[trigger] rest[i]).0@ != name@ by {
            assert(before[i + 1].0@ != name@);
        }
        law_lookup(rest, name, value, after);
        assert(all.drop_first() =~= rest + seq![(name, value)] + after);
        assert(all[0] == before[0]);
    } else {
        assert(all[0] == (name, value));
    }
}

/// A number that a variable holds in decimal is read, where it is no larger than it may
/// be, and is an error where it is larger.
pub proof fn law_required_number(env: Env, key: Seq<char>, kind: Seq<char>, max: nat, n: nat)
    requires
        env.value(key) == Some(decimal(n)),
    ensures
        n <= max ==> required_number(env, key, kind, max) == Ok::<nat, Seq<char>>(n),
        n > max ==> required_number(env, key, kind, max) == Err::<nat, Seq<char>>(
            "Invalid "@ + kind + " value for env var "@ + key + ": "@ + decimal(n),
        ),
{
    law_decimal_is_read_back(n, max);
}

/// An address of Ollama goes before that of another service.
pub proof fn law_ollama_goes_first(env: Env)
    ensures
        optional_str(env, "OLLAMA_BASE_URL"@) matches Some(o) ==> llm_base_url(env) == Ok::<
            Seq<char>,
            Seq<char>,
        >(o),
        optional_str(env, "OLLAMA_BASE_URL"@) is None ==> llm_base_url(env) == required_str(
            env,
            "OPENAI_BASE_URL"@,
        ),
{
}

/// The language model is given some characters, as many as the variable says.
pub proof fn law_max_input_chars(env: Env, n: nat)
    requires
        env.value("LLM_MAX_INPUT_CHARS"@) == Some(decimal(n)),
        n <= usize::MAX,
    ensures
        n > 0 ==> llm_max_input_chars(env) == Ok::<nat, Seq<char>>(n),
        n == 0 ==> llm_max_input_chars(env) is Err,
{
    law_required_number(env, "LLM_MAX_INPUT_CHARS"@, "usize"@, usize::MAX as nat, n);
}

/// A configuration holds the value of each variable under its own name.
#[verifier::rlimit(40)]
pub proof fn law_config_holds(c: Config, env: Env)
    requires
        c.holds(env),
    ensures
        env.value("HOST"@) == Some(c.server.host@),
        parsed(env, "PORT"@, u16::MAX as nat) == Some(c.server.port as nat),
        env.value("POSTGRES_HOST"@) == Some(c.database.host@),
        parsed(env, "POSTGRES_PORT"@, u16::MAX as nat) == Some(c.database.port as nat),
        env.value("POSTGRES_DB"@) == Some(c.database.database@),
        env.value("POSTGRES_USER"@) == Some(c.database.user@),
        env.value("POSTGRES_PASSWORD"@) == Some(c.database.password@),
        parsed(env, "DATABASE_MAX_CONNECTIONS"@, usize::MAX as nat) == Some(
            c.database.max_connections as nat,
        ),
        env.value("REDIS_URL"@) == Some(c.redis.url@),
        env.value("REDIS_RATE_LIMIT_URL"@) == Some(c.redis.rate_limit_url@),
        env.value("MODEL_NAME"@) == Some(c.llm.model_name@),
        parsed(env, "LLM_TIMEOUT_SECONDS"@, u64::MAX as nat) == Some(c.llm.timeout_seconds as nat),
        parsed(env, "LLM_MAX_RETRIES"@, u32::MAX as nat) == Some(c.llm.max_retries as nat),
        parsed(env, "LLM_MAX_INPUT_CHARS"@, usize::MAX as nat) == Some(
            c.llm.max_input_chars as nat,
        ),
        c.llm.max_input_chars > 0,
        parsed(env, "CRAWLER_MAX_DEPTH"@, u32::MAX as nat) == Some(c.crawler.max_depth as nat),
        parsed(env, "CRAWLER_MAX_PAGES"@, u32::MAX as nat) == Some(c.crawler.max_pages as nat),
        parsed(env, "CRAWL_CONCURRENT_REQUESTS"@, u32::MAX as nat) == Some(
            c.crawler.concurrent_requests as nat,
        ),
        parsed(env, "CRAWLER_REQUEST_TIMEOUT_SECONDS"@, u64::MAX as nat) == Some(
            c.crawler.request_timeout_seconds as nat,
        ),
        env.value("CRAWLER_USER_AGENT"@) == Some(c.crawler.user_agent@),
        says(env, "CRAWLER_RESPECT_ROBOTS_TXT"@, c.crawler.respect_robots_txt),
        parsed(env, "BROWSER_POOL_SIZE"@, u32::MAX as nat) == Some(
            c.crawler.browser_pool_size as nat,
        ),
        parsed(env, "NUM_WORKERS_PER_QUEUE"@, u32::MAX as nat) == Some(c.worker.num_workers as nat),
        parsed(env, "MAX_CONCURRENT_JOBS"@, u32::MAX as nat) == Some(
            c.worker.max_concurrent_jobs as nat,
        ),
        parsed(env, "WORKER_JOB_TIMEOUT_SECONDS"@, u64::MAX as nat) == Some(
            c.worker.job_timeout_seconds as nat,
        ),
        parsed(env, "WORKER_MAX_STALLS"@, u32::MAX as nat) == Some(c.worker.max_stalls as nat),
        says(env, "USE_DB_AUTHENTICATION"@, c.auth.use_db_authentication),
        env.value("BULL_AUTH_KEY"@) == Some(c.auth.bull_auth_key@),
        says(env, "ALLOW_LOCAL_WEBHOOKS"@, c.auth.allow_local_webhooks),
{
}

/// The number that a variable holds.
pub open spec fn parsed(env: Env, key: Seq<char>, max: nat) -> Option<nat> {
    match env.value(key) {
        Some(raw) => parse_unsigned(raw, max),
        None => None,
    }
}

/// A variable says yes or no, in one of the words for it.
pub open spec fn says(env: Env, key: Seq<char>, yes: bool) -> bool {
    match env.value(key) {
        Some(v) => if yes {
            v == "true"@ || v == "1"@ || v == "yes"@
        } else {
            v == "false"@ || v == "0"@ || v == "no"@
        },
        None => false,
    }
}

/// A configuration holds the value of each variable that may be absent, where it is set
/// to anything, and the address of the language model.
pub proof fn law_config_holds_what_is_optional(c: Config, env: Env)
    requires
        c.holds(env),
    ensures
        set_to(env, "CORS_ALLOW_ORIGINS"@) matches Some(raw) ==> views(
            c.server.cors_allow_origins@,
        ) == comma_list(raw),
        set_to(env, "CORS_ALLOW_ORIGINS"@) is None ==> c.server.cors_allow_origins@.len() == 0,
        set_to(env, "OPENAI_API_KEY"@) matches Some(k) ==> c.llm.api_key@ == k,
        set_to(env, "OPENAI_API_KEY"@) is None ==> c.llm.api_key@.len() == 0,
        set_to(env, "MODEL_EMBEDDING_NAME"@) == opt_view(c.llm.embedding_model),
        set_to(env, "OLLAMA_BASE_URL"@) == opt_view(c.llm.ollama_base_url),
        set_to(env, "OLLAMA_BASE_URL"@) matches Some(o) ==> c.llm.base_url@ == o,
        set_to(env, "OLLAMA_BASE_URL"@) is None ==> env.value("OPENAI_BASE_URL"@) == Some(
            c.llm.base_url@,
        ),
        set_to(env, "PLAYWRIGHT_MICROSERVICE_URL"@) == opt_view(c.crawler.playwright_url),
        set_to(env, "TEST_API_KEY"@) == opt_view(c.auth.test_api_key),
        set_to(env, "PROXY_SERVER"@) == opt_view(c.proxy.server),
        set_to(env, "PROXY_USERNAME"@) == opt_view(c.proxy.username),
        set_to(env, "PROXY_PASSWORD"@) == opt_view(c.proxy.password),
        set_to(env, "SEARXNG_ENDPOINT"@) == opt_view(c.search.searxng_endpoint),
        set_to(env, "SEARXNG_ENGINES"@) == opt_view(c.search.searxng_engines),
        set_to(env, "SEARXNG_CATEGORIES"@) == opt_view(c.search.searxng_categories),
{
    assert(views(c.server.cors_allow_origins@).len() == c.server.cors_allow_origins@.len());
}

/// What a variable is set to, if it is anything but empty.
pub open spec fn set_to(env: Env, key: Seq<char>) -> Option<Seq<char>> {
    match env.value(key) {
        Some(v) if v.len() > 0 => Some(v),
        _ => None,
    }
}

/// Where each required variable is set, those for numbers to numbers that are not too
/// large and those for choices to words for yes or no, the configuration is read.
#[verifier::rlimit(60)]
#[verifier::spinoff_prover]
pub proof fn law_complete_environment_is_read(env: Env, resource: Result<ResourceConfig, String>)
    requires
        forall|i: int|
            0 <= i < required_keys().len() ==> env.value(#[trigger] required_keys()[i]) is Some,
        set_to(env, "OLLAMA_BASE_URL"@) is Some || env.value("OPENAI_BASE_URL"@) is Some,
        parsed(env, "PORT"@, u16::MAX as nat) is Some,
        parsed(env, "POSTGRES_PORT"@, u16::MAX as nat) is Some,
        parsed(env, "DATABASE_MAX_CONNECTIONS"@, usize::MAX as nat) is Some,
        parsed(env, "LLM_TIMEOUT_SECONDS"@, u64::MAX as nat) is Some,
        parsed(env, "LLM_MAX_RETRIES"@, u32::MAX as nat) is Some,
        parsed(env, "LLM_MAX_INPUT_CHARS"@, usize::MAX as nat) matches Some(n) && n > 0,
        parsed(env, "CRAWLER_MAX_DEPTH"@, u32::MAX as nat) is Some,
        parsed(env, "CRAWLER_MAX_PAGES"@, u32::MAX as nat) is Some,
        parsed(env, "CRAWL_CONCURRENT_REQUESTS"@, u32::MAX as nat) is Some,
        parsed(env, "CRAWLER_REQUEST_TIMEOUT_SECONDS"@, u64::MAX as nat) is Some,
        parsed(env, "BROWSER_POOL_SIZE"@, u32::MAX as nat) is Some,
        parsed(env, "NUM_WORKERS_PER_QUEUE"@, u32::MAX as nat) is Some,
        parsed(env, "MAX_CONCURRENT_JOBS"@, u32::MAX as nat) is Some,
        parsed(env, "WORKER_JOB_TIMEOUT_SECONDS"@, u64::MAX as nat) is Some,
        parsed(env, "WORKER_MAX_STALLS"@, u32::MAX as nat) is Some,
        says(env, "CRAWLER_RESPECT_ROBOTS_TXT"@, true) || says(
            env,
            "CRAWLER_RESPECT_ROBOTS_TXT"@,
            false,
        ),
        says(env, "USE_DB_AUTHENTICATION"@, true) || says(env, "USE_DB_AUTHENTICATION"@, false),
        says(env, "ALLOW_LOCAL_WEBHOOKS"@, true) || says(env, "ALLOW_LOCAL_WEBHOOKS"@, false),
        resource is Ok,
    ensures
        config_error(env, resource) is None,
{
    let k = required_keys();
    assert(env.value(k[0]) is Some && k[0] == "HOST"@);
    assert(env.value(k[2]) is Some && k[2] == "POSTGRES_HOST"@);
    assert(env.value(k[4]) is Some && k[4] == "POSTGRES_DB"@);
    assert(env.value(k[5]) is Some && k[5] == "POSTGRES_USER"@);
    assert(env.value(k[6]) is Some && k[6] == "POSTGRES_PASSWORD"@);
    assert(env.value(k[8]) is Some && k[8] == "REDIS_URL"@);
    assert(env.value(k[9]) is Some && k[9] == "REDIS_RATE_LIMIT_URL"@);
    assert(env.value(k[10]) is Some && k[10] == "MODEL_NAME"@);
    assert(env.value(k[18]) is Some && k[18] == "CRAWLER_USER_AGENT"@);
    assert(env.value(k[26]) is Some && k[26] == "BULL_AUTH_KEY"@);
    lemma_no_error(server_errors(env));
    lemma_no_error(database_errors(env));
    lemma_no_error(redis_errors(env));
    lemma_no_error(llm_errors(env));
    lemma_no_error(crawler_errors(env));
    lemma_no_error(worker_errors(env));
    lemma_no_error(auth_errors(env));
    lemma_no_error(config_errors(env, resource));
}
} // verus!
