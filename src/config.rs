//! Service configuration, read from environment-style settings.
use vstd::prelude::*;
use vstd::string::*;
use crate::text::push_char;

verus! {

/// The whole configuration.
#[derive(Clone, Debug)]
pub struct AppConfig {
    pub port: u16,
    pub postgres: PostgresConfig,
    pub rabbitmq: RabbitMqConfig,
}

/// Storage connection parameters.
#[derive(Clone, Debug)]
pub struct PostgresConfig {
    pub host: String,
    pub port: u16,
    pub db: String,
    pub user: String,
    pub password: String,
    pub max_pool_size: u32,
    pub min_idle: u32,
}

/// Queue connection parameters.
#[derive(Clone, Debug)]
pub struct RabbitMqConfig {
    pub host: String,
    pub port: u16,
    pub user: String,
    pub password: String,
    pub vhost: String,
    pub bill_created_queue: String,
}

/// What `urlencoding::encode` makes of a string.
pub uninterp spec fn url_encoded(s: Seq<char>) -> Seq<char>;

/// Relies on `urlencoding::encode`: the percent-encoding of the string's
/// UTF-8 bytes, every byte but ASCII alphanumerics and `-`, `_`, `.`, `~`
/// escaped; it depends on the characters alone.
#[verifier::external_body]
fn url_encode(s: &str) -> (r: String)
    ensures
        r@ == url_encoded(s@),
{
    urlencoding::encode(s).into_owned()
}

/// The value of the first setting named `name`, if any.
pub open spec fn lookup(vars: Seq<(Seq<char>, Seq<char>)>, name: Seq<char>) -> Option<Seq<char>>
    decreases vars.len(),
{
    if vars.len() == 0 {
        None
    } else if vars[0].0 == name {
        Some(vars[0].1)
    } else {
        lookup(vars.subrange(1, vars.len() as int), name)
    }
}

pub open spec fn vars_view(vars: Seq<(String, String)>) -> Seq<(Seq<char>, Seq<char>)> {
    vars.map_values(|p: (String, String)| (p.0@, p.1@))
}

pub open spec fn is_digit(c: char) -> bool {
    '0' <= c <= '9'
}

/// The number written by a run of decimal digits.
pub open spec fn digits_value(s: Seq<char>) -> int
    decreases s.len(),
{
    if s.len() == 0 {
        0
    } else {
        digits_value(s.drop_last()) * 10 + (s.last() as int - '0' as int)
    }
}

/// An unsigned number no larger than `max`, as `str::parse` reads it: an
/// optional `+`, then one or more decimal digits.
pub open spec fn parsed_unsigned(s: Seq<char>, max: int) -> Option<int> {
    let body = unsigned_body(s);
    if body.len() > 0 && all_digits(body) && digits_value(body) <= max {
        Some(digits_value(body))
    } else {
        None
    }
}

/// `s` without one leading `+`.
pub open spec fn unsigned_body(s: Seq<char>) -> Seq<char> {
    if s.len() > 0 && s[0] == '+' {
        s.subrange(1, s.len() as int)
    } else {
        s
    }
}

pub open spec fn all_digits(s: Seq<char>) -> bool {
    forall|i: int| 0 <= i < s.len() ==> is_digit(#[trigger] s[i])
}

/// The decimal digit for `d < 10`.
pub open spec fn digit_char(d: nat) -> char {
    ((48 + d) as u8) as char
}

/// Decimal digits of `n`, without leading zeros.
pub open spec fn decimal_text(n: nat) -> Seq<char>
    decreases n,
{
    if n < 10 {
        seq![digit_char(n)]
    } else {
        decimal_text(n / 10).push(digit_char(n % 10))
    }
}

/// `s` without its leading `/` characters.
pub open spec fn without_leading_slashes(s: Seq<char>) -> Seq<char>
    decreases s.len(),
{
    if s.len() > 0 && s[0] == '/' {
        without_leading_slashes(s.subrange(1, s.len() as int))
    } else {
        s
    }
}

proof fn lemma_digits_prefix(s: Seq<char>, k: int)
    requires
        0 <= k <= s.len(),
        forall|i: int| 0 <= i < s.len() ==> is_digit(#[trigger] s[i]),
    ensures
        0 <= digits_value(s.subrange(0, k)) <= digits_value(s),
    decreases s.len(),
{
    if s.len() > 0 {
        if k == s.len() {
            assert(s.subrange(0, k) =~= s);
            lemma_digits_prefix(s.drop_last(), k - 1);
            assert(s.drop_last().subrange(0, k - 1) =~= s.drop_last());
        } else {
            lemma_digits_prefix(s.drop_last(), k);
            assert(s.drop_last().subrange(0, k) =~= s.subrange(0, k));
        }
        assert(is_digit(s[s.len() - 1]));
    }
}

/// Reads an unsigned number no larger than `max`.
pub fn parse_unsigned(s: &str, max: u32) -> (r: Option<u32>)
    ensures
        r is Some <==> parsed_unsigned(s@, max as int) is Some,
        r is Some ==> r->Some_0 == parsed_unsigned(s@, max as int)->Some_0,
{
    let n = s.unicode_len();
    let mut start: usize = 0;
    if n > 0 && s.get_char(0) == '+' {
        start = 1;
    }
    let ghost body = unsigned_body(s@);
    proof {
        assert(body =~= s@.subrange(start as int, n as int));
    }
    if start >= n {
        return None;
    }
    let mut acc: u32 = 0;
    let mut i: usize = start;
    while i < n
        invariant
            n == s@.len(),
            start <= i <= n,
            start < n,
            body == s@.subrange(start as int, n as int),
            body == unsigned_body(s@),
            forall|j: int| 0 <= j < i - start ==> is_digit(#[trigger] body[j]),
            acc == digits_value(body.subrange(0, i - start)),
            acc <= max,
        decreases n - i,
    {
        let c = s.get_char(i);
        proof {
            assert(body[i - start] == c);
            assert(body.subrange(0, i + 1 - start).drop_last() =~= body.subrange(0, i - start));
        }
        if !('0' <= c && c <= '9') {
            proof {
                assert(!is_digit(body[i - start]));
                assert(!all_digits(body));

            }
            return None;
        }
        let d = (c as u32) - ('0' as u32);
        if d > max || acc > (max - d) / 10 {
            proof {
                assert(forall|j: int| 0 <= j < i + 1 - start ==> is_digit(#[trigger] body[j]));
                if all_digits(body) {
                    lemma_digits_prefix(body, i + 1 - start);
                }
                assert(acc * 10 + d > max) by (nonlinear_arith)
                    requires
                        d > max || acc > (max - d) / 10,
                        acc >= 0,
                ;
                let p = body.subrange(0, i + 1 - start);
                assert(p.last() == c);
                assert(digits_value(p) == acc * 10 + d);
                assert(body.len() > 0);
            }
            return None;
        }
        proof {
            assert(acc * 10 + d <= max) by (nonlinear_arith)
                requires
                    acc <= (max - d) / 10,
                    d <= max,
            ;
        }
        acc = acc * 10 + d;
        i = i + 1;
    }
    proof {
        assert(body.subrange(0, n - start) =~= body);
    }
    Some(acc)
}

/// Appends the decimal digits of `n`.
fn push_decimal(out: &mut String, n: u32)
    ensures
        final(out)@ == old(out)@ + decimal_text(n as nat),
    decreases n,
{
    if n >= 10 {
        push_decimal(out, n / 10);
    }
    let d: u8 = (n % 10) as u8;
    push_char(out, (48 + d) as char);
    proof {
        if n < 10 {
            assert(decimal_text(n as nat) =~= seq![digit_char(n as nat)]);
        }
    }
}

/// Finds the first setting named `name`.
fn find_setting<'a>(vars: &'a Vec<(String, String)>, name: &str) -> (r: Option<&'a String>)
    ensures
        r is Some <==> lookup(vars_view(vars@), name@) is Some,
        r is Some ==> r->Some_0@ == lookup(vars_view(vars@), name@)->Some_0,
{
    let key = String::from_str(name);
    let ghost vv = vars_view(vars@);
    let mut i: usize = 0;
    proof {
        assert(vv.subrange(0, vv.len() as int) =~= vv);
    }
    while i < vars.len()
        invariant
            i <= vars@.len(),
            vv == vars_view(vars@),
            key@ == name@,
            lookup(vv, name@) == lookup(vv.subrange(i as int, vv.len() as int), name@),
        decreases vars@.len() - i,
    {
        let ghost rest = vv.subrange(i as int, vv.len() as int);
        proof {
            assert(rest[0] == vv[i as int]);
            assert(rest.subrange(1, rest.len() as int) =~= vv.subrange(i + 1, vv.len() as int));
        }
        if vars[i].0 == key {
            return Some(&vars[i].1);
        }
        i = i + 1;
    }
    None
}

/// The text setting `name`, or `default` where it is not set.
pub open spec fn text_setting(vars: Seq<(Seq<char>, Seq<char>)>, name: Seq<char>, default: Seq<char>) -> Seq<char> {
    match lookup(vars, name) {
        Some(v) => v,
        None => default,
    }
}

/// The numeric setting `name` no larger than `max`, or `default` where it is
/// not set or not such a number.
pub open spec fn number_setting(vars: Seq<(Seq<char>, Seq<char>)>, name: Seq<char>, max: int, default: int) -> int {
    match lookup(vars, name) {
        Some(v) => match parsed_unsigned(v, max) {
            Some(n) => n,
            None => default,
        },
        None => default,
    }
}

fn env_string(vars: &Vec<(String, String)>, name: &str, default: &str) -> (r: String)
    ensures
        r@ == text_setting(vars_view(vars@), name@, default@),
{
    match find_setting(vars, name) {
        Some(v) => v.clone(),
        None => String::from_str(default),
    }
}

fn env_u32(vars: &Vec<(String, String)>, name: &str, default: u32) -> (r: u32)
    ensures
        r == number_setting(vars_view(vars@), name@, u32::MAX as int, default as int),
{
    match find_setting(vars, name) {
        Some(v) => match parse_unsigned(v.as_str(), u32::MAX) {
            Some(n) => n,
            None => default,
        },
        None => default,
    }
}

fn env_u16(vars: &Vec<(String, String)>, name: &str, default: u16) -> (r: u16)
    ensures
        r == number_setting(vars_view(vars@), name@, u16::MAX as int, default as int),
{
    match find_setting(vars, name) {
        Some(v) => match parse_unsigned(v.as_str(), u16::MAX as u32) {
            Some(n) => n as u16,
            None => default,
        },
        None => default,
    }
}

impl AppConfig {
    /// The configuration from the settings `vars` (name, value), each value
    /// falling back to its local-development default where the setting is
    /// absent or, for a number, not a valid one.
    pub fn from_env(vars: &Vec<(String, String)>) -> (r: AppConfig)
        ensures
            ({
                let v = vars_view(vars@);
                &&& r.port == number_setting(v, "PORT"@, u16::MAX as int, 8080)
                &&& r.postgres.host@ == text_setting(v, "POSTGRES_HOST"@, "localhost"@)
                &&& r.postgres.port == number_setting(v, "POSTGRES_PORT"@, u16::MAX as int, 5440)
                &&& r.postgres.db@ == text_setting(v, "POSTGRES_DB"@, "api_lang_arena"@)
                &&& r.postgres.user@ == text_setting(v, "POSTGRES_USER"@, "api_lang_user"@)
                &&& r.postgres.password@ == text_setting(v, "POSTGRES_PASSWORD"@, "api_lang_password"@)
                &&& r.postgres.max_pool_size == number_setting(v, "RUST_DB_MAX_POOL_SIZE"@, u32::MAX as int, 6)
                &&& r.postgres.min_idle == number_setting(v, "RUST_DB_MIN_IDLE"@, u32::MAX as int, 1)
                &&& r.rabbitmq.host@ == text_setting(v, "RABBITMQ_HOST"@, "localhost"@)
                &&& r.rabbitmq.port == number_setting(v, "RABBITMQ_PORT"@, u16::MAX as int, 5672)
                &&& r.rabbitmq.user@ == text_setting(v, "RABBITMQ_USER"@, "guest"@)
                &&& r.rabbitmq.password@ == text_setting(v, "RABBITMQ_PASSWORD"@, "guest"@)
                &&& r.rabbitmq.vhost@ == text_setting(v, "RABBITMQ_VHOST"@, "/"@)
                &&& r.rabbitmq.bill_created_queue@ == text_setting(v, "RABBITMQ_BILL_CREATED_QUEUE"@, "bill-created"@)
            }),
    {
        AppConfig {
            port: env_u16(vars, "PORT", 8080),
            postgres: PostgresConfig {
                host: env_string(vars, "POSTGRES_HOST", "localhost"),
                port: env_u16(vars, "POSTGRES_PORT", 5440),
                db: env_string(vars, "POSTGRES_DB", "api_lang_arena"),
                user: env_string(vars, "POSTGRES_USER", "api_lang_user"),
                password: env_string(vars, "POSTGRES_PASSWORD", "api_lang_password"),
                max_pool_size: env_u32(vars, "RUST_DB_MAX_POOL_SIZE", 6),
                min_idle: env_u32(vars, "RUST_DB_MIN_IDLE", 1),
            },
            rabbitmq: RabbitMqConfig {
                host: env_string(vars, "RABBITMQ_HOST", "localhost"),
                port: env_u16(vars, "RABBITMQ_PORT", 5672),
                user: env_string(vars, "RABBITMQ_USER", "guest"),
                password: env_string(vars, "RABBITMQ_PASSWORD", "guest"),
                vhost: env_string(vars, "RABBITMQ_VHOST", "/"),
                bill_created_queue: env_string(vars, "RABBITMQ_BILL_CREATED_QUEUE", "bill-created"),
            },
        }
    }
}

impl PostgresConfig {
    /// The connection URL, user and password percent-encoded.
    pub fn database_url(&self) -> (r: String)
        ensures
            r@ == "postgres://"@ + url_encoded(self.user@) + ":"@ + url_encoded(self.password@) + "@"@
                + self.host@ + ":"@ + decimal_text(self.port as nat) + "/"@ + self.db@,
    {
        let mut out = String::from_str("postgres://");
        out.append(url_encode(self.user.as_str()).as_str());
        out.append(":");
        out.append(url_encode(self.password.as_str()).as_str());
        out.append("@");
        out.append(self.host.as_str());
        out.append(":");
        push_decimal(&mut out, self.port as u32);
        out.append("/");
        out.append(self.db.as_str());
        out
    }
}

/// The path segment that names a virtual host.
pub open spec fn vhost_segment(vhost: Seq<char>) -> Seq<char> {
    if vhost == "/"@ {
        "%2F"@
    } else {
        url_encoded(without_leading_slashes(vhost))
    }
}

/// `s` without its leading `/` characters.
fn strip_leading_slashes(s: &str) -> (r: &str)
    ensures
        r@ == without_leading_slashes(s@),
{
    let n = s.unicode_len();
    let mut i: usize = 0;
    proof {
        assert(s@.subrange(0, n as int) =~= s@);
    }
    while i < n && s.get_char(i) == '/'
        invariant
            n == s@.len(),
            i <= n,
            without_leading_slashes(s@) == without_leading_slashes(s@.subrange(i as int, n as int)),
        decreases n - i,
    {
        proof {
            let rest = s@.subrange(i as int, n as int);
            assert(rest.subrange(1, rest.len() as int) =~= s@.subrange(i + 1, n as int));
        }
        i = i + 1;
    }
    s.substring_char(i, n)
}

impl RabbitMqConfig {
    /// The connection URL, user, password and virtual host percent-encoded;
    /// the root virtual host is written `%2F`.
    pub fn amqp_url(&self) -> (r: String)
        ensures
            r@ == "amqp://"@ + url_encoded(self.user@) + ":"@ + url_encoded(self.password@) + "@"@
                + self.host@ + ":"@ + decimal_text(self.port as nat) + "/"@ + vhost_segment(self.vhost@),
    {
        let root = String::from_str("/");
        let segment = if self.vhost == root {
            String::from_str("%2F")
        } else {
            url_encode(strip_leading_slashes(self.vhost.as_str()))
        };
        let mut out = String::from_str("amqp://");
        out.append(url_encode(self.user.as_str()).as_str());
        out.append(":");
        out.append(url_encode(self.password.as_str()).as_str());
        out.append("@");
        out.append(self.host.as_str());
        out.append(":");
        push_decimal(&mut out, self.port as u32);
        out.append("/");
        out.append(segment.as_str());
        out
    }
}

} // verus!
