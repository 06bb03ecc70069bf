//! Signing in: passwords, login forms and session cookies.

use vstd::prelude::*;
use vstd::string::*;

use crate::config::AdminConfig;
use crate::headers;
use crate::headers::Header;
use crate::outside;
use crate::sessions;
use crate::sessions::Sessions;
use crate::text;

verus! {

/// The name of the cookie that holds the session token.
pub const SESSION_COOKIE: &'static str = "wh_admin_session";

/// The largest login form that is read, in bytes.
pub const LOGIN_FORM_LIMIT: usize = 16_384;

proof fn lemma_difference(seen: u8, x: u8, y: u8)
    ensures
        (seen | (x ^ y)) == 0 <==> seen == 0 && x == y,
{
    assert((seen | (x ^ y)) == 0 <==> seen == 0 && x == y) by (bit_vector);
}

/// Whether two byte strings are equal. The time that it takes depends on their
/// lengths alone, not on where they differ.
pub fn constant_time_eq(a: &[u8], b: &[u8]) -> (same: bool)
    ensures
        same == (a@ == b@),
{
    if a.len() != b.len() {
        return false;
    }
    let mut seen: u8 = 0;
    assert(a@.take(0) == b@.take(0));
    for i in 0..a.len()
        invariant
            a@.len() == b@.len(),
            seen == 0 <==> a@.take(i as int) == b@.take(i as int),
    {
        let x: u8 = a[i];
        let y: u8 = b[i];
        proof {
            lemma_difference(seen, x, y);
            let p = a@.take(i + 1);
            let q = b@.take(i + 1);
            assert(p.drop_last() == a@.take(i as int));
            assert(q.drop_last() == b@.take(i as int));
            assert(p =~= p.drop_last().push(x));
            assert(q =~= q.drop_last().push(y));
            if p == q {
                assert(p.last() == q.last());
            }
        }
        seen = seen | (x ^ y);
    }
    assert(a@.take(a@.len() as int) == a@);
    assert(b@.take(b@.len() as int) == b@);
    seen == 0
}

/// Whether two texts are equal, in a time that depends on their lengths alone.
fn same_secret(a: &str, b: &str) -> (same: bool)
    ensures
        same == (a@ == b@),
{
    proof {
        vstd::utf8::encode_utf8_decode_utf8(a@);
        vstd::utf8::encode_utf8_decode_utf8(b@);
    }
    constant_time_eq(a.as_bytes(), b.as_bytes())
}

/// A password fits what is stored: a bcrypt hash where that begins with `$2`, the
/// password itself otherwise. White space around what is stored does not count, and
/// a broken hash fits nothing.
pub open spec fn password_fits(stored: Seq<char>, given: Seq<char>) -> bool {
    let kept = text::trimmed(stored);
    if "$2"@.is_prefix_of(kept) {
        outside::bcrypt_answer(kept, given) == Some(true)
    } else {
        kept == given
    }
}

/// Whether a password fits what is stored: a bcrypt hash where that begins with
/// `$2`, the password itself otherwise.
pub fn password_matches(stored: &str, given: &str) -> (fits: bool)
    ensures
        fits == password_fits(stored@, given@),
{
    let chars: Vec<char> = text::to_chars(stored);
    let kept: Vec<char> = text::trim(chars.as_slice());
    let mark: Vec<char> = text::to_chars("$2");
    let secret: String = text::from_chars(kept.as_slice());
    if text::starts_with(kept.as_slice(), mark.as_slice()) {
        match outside::bcrypt_verify(secret.as_str(), given) {
            Some(fits) => fits,
            None => false,
        }
    } else {
        same_secret(secret.as_str(), given)
    }
}

/// Why no password was made.
#[derive(Debug)]
pub enum PasswordError {
    /// The two entries differ.
    Mismatch,
    /// The entries are empty.
    Empty,
    /// The hash could not be made, for the reason given.
    Hash(String),
}

impl PasswordError {
    /// The sentence for the error.
    pub fn message(&self) -> (sentence: String)
        ensures
            sentence@ == match self {
                PasswordError::Mismatch => "passwords do not match"@,
                PasswordError::Empty => "password must not be empty"@,
                PasswordError::Hash(reason) => reason@,
            },
    {
        match self {
            PasswordError::Mismatch => "passwords do not match".to_string(),
            PasswordError::Empty => "password must not be empty".to_string(),
            PasswordError::Hash(reason) => reason.clone(),
        }
    }
}

/// What the making of a hash comes to.
pub fn password_made(made: Result<String, String>) -> (hash: Result<String, PasswordError>)
    ensures
        hash == match made {
            Ok(h) => Ok::<String, PasswordError>(h),
            Err(reason) => Err::<String, PasswordError>(PasswordError::Hash(reason)),
        },
{
    match made {
        Ok(h) => Ok(h),
        Err(reason) => Err(PasswordError::Hash(reason)),
    }
}

/// A bcrypt hash of a password that was entered twice. The hash fits the password,
/// and differs from call to call.
pub fn genpassword(password: &str, confirm: &str) -> (hash: Result<String, PasswordError>)
    ensures
        hash matches Err(PasswordError::Mismatch) <==> password@ != confirm@,
        hash matches Err(PasswordError::Empty) <==> password@ == confirm@ && password@.len() == 0,
        hash matches Ok(h) ==> password_fits(h@, password@) && "$2b$12$"@.is_prefix_of(h@),
{
    if !text::same_text(password, confirm) {
        return Err(PasswordError::Mismatch);
    }
    let chars: Vec<char> = text::to_chars(password);
    if chars.len() == 0 {
        return Err(PasswordError::Empty);
    }
    let made: Result<String, String> = outside::bcrypt_hash(password);
    proof {
        if made is Ok {
            let h = made->Ok_0@;
            reveal_strlit("$2");
            reveal_strlit("$2b$12$");
            assert(h.subrange(0, 7)[0] == '$' && h.subrange(0, 7)[1] == '2');
            assert(outside::is_bcrypt_char(h[0]));
            assert(outside::is_bcrypt_char(h[h.len() - 1]));
            assert(text::trimmed(h) == h);
            assert("$2"@ =~= h.subrange(0, 2));
        }
    }
    password_made(made)
}

/// What is said of a new password: its hash, and where to put it.
pub fn password_notice(hash: &str) -> (notice: String)
    ensures
        notice@ == seq![
            hash@,
            "\n\nPut this in config.toml:\n\n[admin]\nusername = \"admin\"\npassword = \""@,
            hash@,
            "\""@,
        ].flatten(),
{
    let parts: [&str; 4] = [
        hash,
        "\n\nPut this in config.toml:\n\n[admin]\nusername = \"admin\"\npassword = \"",
        hash,
        "\"",
    ];
    assert(text::borrowed_contents(parts@) =~= seq![
        hash@,
        "\n\nPut this in config.toml:\n\n[admin]\nusername = \"admin\"\npassword = \""@,
        hash@,
        "\""@,
    ]);
    text::join_parts(&parts)
}

/// A plaintext password is matched by itself and by nothing else.
pub proof fn law_plaintext_password_fits_itself(stored: Seq<char>, given: Seq<char>)
    requires
        text::trimmed(stored) == stored,
        !"$2"@.is_prefix_of(stored),
    ensures
        password_fits(stored, given) <==> given == stored,
{
}

/// `s` with a space in place of every plus sign.
pub open spec fn plus_as_space(s: Seq<char>) -> Seq<char> {
    s.map_values(
        |c: char|
            if c == '+' {
                ' '
            } else {
                c
            },
    )
}

/// What a part of a form stands for, once `decoded` is what its percent signs
/// decode to: the text with its plus signs as spaces where they decode to none.
pub open spec fn component_text(raw: Seq<char>, decoded: Option<Seq<char>>) -> Seq<char> {
    match decoded {
        Some(text) => text,
        None => plus_as_space(raw),
    }
}

/// What a part of a form stands for.
pub open spec fn form_text(raw: Seq<char>) -> Seq<char> {
    component_text(raw, outside::url_decoded(plus_as_space(raw)))
}

/// `s` with a space in place of every plus sign.
fn replace_plus(s: &[char]) -> (spaced: String)
    ensures
        spaced@ == plus_as_space(s@),
{
    let mut spaced: String = String::new();
    for i in 0..s.len()
        invariant
            spaced@ == plus_as_space(s@.take(i as int)),
    {
        if s[i] == '+' {
            spaced.push(' ');
        } else {
            spaced.push(s[i]);
        }
        assert(spaced@ =~= plus_as_space(s@.take(i + 1)));
    }
    assert(s@.take(s@.len() as int) == s@);
    spaced
}

/// What a part of a form stands for, once `decoded` is what its percent signs
/// decode to.
pub fn decoded_component(raw: &str, decoded: Option<String>) -> (plain: String)
    ensures
        plain@ == component_text(raw@, text::optional_text(decoded)),
{
    match decoded {
        Some(text) => text,
        None => {
            let chars: Vec<char> = text::to_chars(raw);
            replace_plus(chars.as_slice())
        },
    }
}

/// What a part of a form stands for: a plus sign for a space, and percent signs for
/// what they encode.
pub fn decode_component(raw: &str) -> (plain: String)
    ensures
        plain@ == form_text(raw@),
        !raw@.contains('%') ==> plain@ == plus_as_space(raw@),
{
    let chars: Vec<char> = text::to_chars(raw);
    let spaced: String = replace_plus(chars.as_slice());
    proof {
        if !raw@.contains('%') {
            assert(!spaced@.contains('%')) by {
                assert forall|i: int| 0 <= i < spaced@.len() implies spaced@[i] != '%' by {
                    assert(raw@[i] != '%');
                }
            }
        }
    }
    let decoded: Option<String> = outside::url_decode(spaced.as_str());
    decoded_component(raw, decoded)
}

/// What stands in front of the first equals sign; all where there is none.
pub open spec fn key_part(piece: Seq<char>) -> Seq<char> {
    text::split_on(piece, '=')[0]
}

/// The fields that the pieces of a form hold: a key and a value for each piece with
/// an equals sign. Other pieces hold nothing.
pub open spec fn fields_in(pieces: Seq<Seq<char>>) -> Seq<(Seq<char>, Seq<char>)>
    decreases pieces.len(),
{
    if pieces.len() == 0 {
        Seq::empty()
    } else {
        let before = fields_in(pieces.drop_last());
        let piece = pieces.last();
        let key = key_part(piece);
        if key.len() < piece.len() {
            before.push((form_text(key), form_text(piece.skip(key.len() as int + 1))))
        } else {
            before
        }
    }
}

/// The fields of a form.
pub open spec fn form_fields(body: Seq<char>) -> Seq<(Seq<char>, Seq<char>)> {
    fields_in(text::split_on(body, '&'))
}

/// The contents of a list of fields.
pub open spec fn field_texts(fields: Seq<(String, String)>) -> Seq<(Seq<char>, Seq<char>)> {
    fields.map_values(|field: (String, String)| (field.0@, field.1@))
}

/// Where the first equals sign is; the length where there is none.
fn key_length(piece: &[char]) -> (n: usize)
    ensures
        n == key_part(piece@).len(),
        n <= piece@.len(),
        key_part(piece@) == piece@.take(n as int),
{
    proof {
        text::lemma_first_piece(piece@, '=');
    }
    let ghost key = key_part(piece@);
    assert(key == piece@.subrange(0, key.len() as int));
    assert(key =~= piece@.take(key.len() as int));
    let mut n: usize = 0;
    while n < piece.len() && piece[n] != '='
        invariant
            n <= piece.len(),
            key == piece@.take(key.len() as int),
            key.len() <= piece@.len(),
            !key.contains('='),
            key.len() < piece@.len() ==> piece@[key.len() as int] == '=',
            n <= key.len(),
        decreases piece.len() - n,
    {
        n = n + 1;
    }
    proof {
        if n < key.len() {
            assert(key[n as int] == piece@[n as int]);
            assert(key.contains('='));
        }
    }
    n
}

/// The fields of a form, keys and values decoded, in order.
pub fn parse_form(body: &str) -> (fields: Vec<(String, String)>)
    ensures
        field_texts(fields@) == form_fields(body@),
{
    let chars: Vec<char> = text::to_chars(body);
    let pieces: Vec<Vec<char>> = text::split(chars.as_slice(), '&');
    let ghost all = pieces@.map_values(|p: Vec<char>| p@);
    let mut fields: Vec<(String, String)> = Vec::new();
    assert(field_texts(fields@) =~= fields_in(all.take(0)));
    for i in 0..pieces.len()
        invariant
            all == pieces@.map_values(|p: Vec<char>| p@),
            field_texts(fields@) == fields_in(all.take(i as int)),
    {
        let piece: &Vec<char> = &pieces[i];
        proof {
            assert(all.take(i + 1).drop_last() == all.take(i as int));
            assert(all.take(i + 1).last() == piece@);
        }
        let n: usize = key_length(piece.as_slice());
        if n < piece.len() {
            let key: Vec<char> = text::slice(piece.as_slice(), 0, n);
            let value: Vec<char> = text::slice(piece.as_slice(), n + 1, piece.len());
            assert(key@ =~= key_part(piece@));
            assert(value@ =~= piece@.skip(n + 1));
            let raw_key: String = text::from_chars(key.as_slice());
            let raw_value: String = text::from_chars(value.as_slice());
            let ghost before = fields@;
            let field: (String, String) = (
                decode_component(raw_key.as_str()),
                decode_component(raw_value.as_str()),
            );
            fields.push(field);
            assert(field_texts(fields@) =~= field_texts(before).push((field.0@, field.1@)));
        }
    }
    assert(all.take(all.len() as int) == all);
    fields
}

/// The value of the first field of a name.
pub open spec fn first_field(fields: Seq<(Seq<char>, Seq<char>)>, name: Seq<char>) -> Option<
    Seq<char>,
>
    decreases fields.len(),
{
    if fields.len() == 0 {
        None
    } else if fields.first().0 == name {
        Some(fields.first().1)
    } else {
        first_field(fields.drop_first(), name)
    }
}

/// The value of the first field of a name.
pub fn form_value(form: &Vec<(String, String)>, name: &str) -> (value: Option<String>)
    ensures
        text::optional_text(value) == first_field(field_texts(form@), name@),
{
    let ghost all = field_texts(form@);
    assert(all.skip(0) == all);
    for i in 0..form.len()
        invariant
            all == field_texts(form@),
            first_field(all.skip(i as int), name@) == first_field(all, name@),
    {
        assert(all.skip(i as int).drop_first() == all.skip(i + 1));
        if text::same_text(form[i].0.as_str(), name) {
            return Some(form[i].1.clone());
        }
    }
    None
}

/// The value of the first field of a name, or an empty text.
pub open spec fn field_or_empty(fields: Seq<(Seq<char>, Seq<char>)>, name: Seq<char>) -> Seq<char> {
    match first_field(fields, name) {
        Some(value) => value,
        None => Seq::empty(),
    }
}

/// What became of a request to sign in.
#[derive(Debug, Clone, Copy, PartialEq, Eq, Structural)]
pub enum LoginOutcome {
    /// No password is set, so nobody has to sign in.
    NotNeeded,
    /// The form could not be read.
    Unreadable,
    /// The name or the password is wrong.
    Denied,
    /// The name and the password are right.
    Granted,
}

/// A name and a password are those of the administrator.
pub open spec fn credentials_fit(
    admin: AdminConfig,
    username: Seq<char>,
    password: Seq<char>,
) -> bool {
    admin.password matches Some(stored) && username == admin.username@ && password_fits(
        stored@,
        password,
    )
}

/// Whether a name and a password are those of the administrator.
pub fn credentials_match(admin: &AdminConfig, username: &str, password: &str) -> (fit: bool)
    ensures
        fit == credentials_fit(*admin, username@, password@),
{
    match &admin.password {
        None => false,
        Some(stored) => {
            let user_ok: bool = same_secret(username, admin.username.as_str());
            let pass_ok: bool = password_matches(stored.as_str(), password);
            user_ok && pass_ok
        },
    }
}

/// What becomes of a request to sign in with the text of a form.
pub open spec fn form_outcome(admin: AdminConfig, form: Seq<char>) -> LoginOutcome {
    let fields = form_fields(form);
    if credentials_fit(
        admin,
        field_or_empty(fields, "username"@),
        field_or_empty(fields, "password"@),
    ) {
        LoginOutcome::Granted
    } else {
        LoginOutcome::Denied
    }
}

/// An empty text where there is none.
fn or_empty(text: Option<String>) -> (t: String)
    ensures
        t@ == match text {
            Some(s) => s@,
            None => Seq::empty(),
        },
{
    match text {
        Some(s) => s,
        None => String::new(),
    }
}

/// What becomes of a request to sign in with the text of a form.
pub fn check_form(admin: &AdminConfig, form: &str) -> (outcome: LoginOutcome)
    ensures
        outcome == form_outcome(*admin, form@),
{
    let fields: Vec<(String, String)> = parse_form(form);
    let username: String = or_empty(form_value(&fields, "username"));
    let password: String = or_empty(form_value(&fields, "password"));
    if credentials_match(admin, username.as_str(), password.as_str()) {
        LoginOutcome::Granted
    } else {
        LoginOutcome::Denied
    }
}

/// What becomes of a request to sign in. `body` is the form that was sent, `None`
/// where it could not be read.
pub fn check_login(admin: &AdminConfig, body: Option<&[u8]>) -> (outcome: LoginOutcome)
    ensures
        outcome == if admin.password is None {
            LoginOutcome::NotNeeded
        } else {
            match body {
                None => LoginOutcome::Unreadable,
                Some(bytes) => form_outcome(*admin, outside::lossy_text(bytes@)),
            }
        },
{
    if admin.password.is_none() {
        return LoginOutcome::NotNeeded;
    }
    match body {
        None => LoginOutcome::Unreadable,
        Some(bytes) => {
            let form: String = outside::utf8_lossy(bytes);
            check_form(admin, form.as_str())
        },
    }
}

/// What stands in front of the token in a cookie.
pub open spec fn cookie_mark() -> Seq<char> {
    seq![SESSION_COOKIE@, "="@].flatten()
}

/// The token in the first of the pieces of a cookie header that holds one.
pub open spec fn token_in(pieces: Seq<Seq<char>>) -> Option<Seq<char>>
    decreases pieces.len(),
{
    if pieces.len() == 0 {
        None
    } else {
        let piece = text::trimmed(pieces.first());
        if cookie_mark().is_prefix_of(piece) {
            Some(piece.skip(cookie_mark().len() as int))
        } else {
            token_in(pieces.drop_first())
        }
    }
}

/// The token in the first cookie header that can be read and holds one.
pub open spec fn cookie_token(headers: Seq<Header>) -> Option<Seq<char>>
    decreases headers.len(),
{
    if headers.len() == 0 {
        None
    } else {
        let first = headers.first();
        let here = if first.name@ == "cookie"@ && headers::is_readable(first.value@) {
            token_in(text::split_on(headers::value_text(first.value@), ';'))
        } else {
            None
        };
        match here {
            Some(token) => Some(token),
            None => cookie_token(headers.drop_first()),
        }
    }
}

/// The token in a cookie header.
fn token_of(value: &str) -> (token: Option<String>)
    ensures
        text::optional_text(token) == token_in(text::split_on(value@, ';')),
{
    let chars: Vec<char> = text::to_chars(value);
    let pieces: Vec<Vec<char>> = text::split(chars.as_slice(), ';');
    let own: String = text::join_two(SESSION_COOKIE, "=");
    let mark: Vec<char> = text::to_chars(own.as_str());
    let ghost all = pieces@.map_values(|p: Vec<char>| p@);
    assert(all.skip(0) == all);
    for i in 0..pieces.len()
        invariant
            all == pieces@.map_values(|p: Vec<char>| p@),
            all == text::split_on(value@, ';'),
            mark@ == cookie_mark(),
            token_in(all.skip(i as int)) == token_in(all),
    {
        assert(all.skip(i as int).drop_first() == all.skip(i + 1));
        assert(all.skip(i as int).first() == pieces@[i as int]@);
        let piece: Vec<char> = text::trim(pieces[i].as_slice());
        if text::starts_with(piece.as_slice(), mark.as_slice()) {
            let token: Vec<char> = text::slice(piece.as_slice(), mark.len(), piece.len());
            assert(token@ =~= piece@.skip(mark@.len() as int));
            return Some(text::from_chars(token.as_slice()));
        }
    }
    None
}

/// The session token that a request brings.
pub fn session_cookie(headers: &Vec<Header>) -> (token: Option<String>)
    ensures
        text::optional_text(token) == cookie_token(headers@),
{
    assert(headers@.skip(0) == headers@);
    for i in 0..headers.len()
        invariant
            cookie_token(headers@.skip(i as int)) == cookie_token(headers@),
    {
        assert(headers@.skip(i as int).drop_first() == headers@.skip(i + 1));
        let header: &Header = &headers[i];
        if text::same_text(header.name.as_str(), "cookie") {
            if let Some(value) = headers::header_text(header.value.as_slice()) {
                let token: Option<String> = token_of(value.as_str());
                if token.is_some() {
                    return token;
                }
            }
        }
    }
    None
}

/// A request may see the administration pages: no password is set, or it brings
/// the token of a session.
pub open spec fn may_enter(
    admin: AdminConfig,
    sessions: Map<Seq<char>, i128>,
    headers: Seq<Header>,
    now: i128,
) -> bool {
    admin.password is None || (cookie_token(headers) matches Some(token) && sessions::live(
        sessions,
        now,
    ).contains_key(token))
}

/// Whether a request may see the administration pages. Where a token is looked up,
/// the sessions that have expired are forgotten.
pub fn is_authorized(
    admin: &AdminConfig,
    sessions: &mut Sessions,
    headers: &Vec<Header>,
    now: i128,
) -> (authorized: bool)
    ensures
        authorized == may_enter(*admin, old(sessions)@, headers@, now),
        final(sessions)@ == if admin.password is Some && cookie_token(headers@) is Some {
            sessions::live(old(sessions)@, now)
        } else {
            old(sessions)@
        },
{
    if admin.password.is_none() {
        return true;
    }
    match session_cookie(headers) {
        Some(token) => sessions.is_valid(token.as_str(), now),
        None => false,
    }
}

/// What is warned of when the server starts: that nobody has to sign in, or that
/// the password is stored as it is.
pub fn startup_warning(admin: &AdminConfig) -> (warning: Option<&'static str>)
    ensures
        match (admin.password, warning) {
            (None, Some(w)) => w@
                == "admin.password is not configured; the admin UI requires no login"@,
            (Some(stored), Some(w)) => !"$2"@.is_prefix_of(stored@) && w@
                == "admin.password is plaintext; generate a bcrypt hash with the genpassword subcommand"@,
            (Some(stored), None) => "$2"@.is_prefix_of(stored@),
            (None, None) => false,
        },
{
    match &admin.password {
        None => Some("admin.password is not configured; the admin UI requires no login"),
        Some(stored) => {
            let chars: Vec<char> = text::to_chars(stored.as_str());
            let mark: Vec<char> = text::to_chars("$2");
            if text::starts_with(chars.as_slice(), mark.as_slice()) {
                None
            } else {
                Some(
                    "admin.password is plaintext; generate a bcrypt hash with the genpassword subcommand",
                )
            }
        },
    }
}

/// White space around what is stored makes no difference to which password fits.
pub proof fn law_white_space_around_a_password_is_ignored(stored: Seq<char>, given: Seq<char>)
    ensures
        password_fits(stored, given) == password_fits(text::trimmed(stored), given),
{
    text::law_trimming_takes_white_space(stored);
    let kept = text::trimmed(stored);
    assert(text::trimmed(kept) == kept);
}

/// What is stored as a bcrypt hash is matched by what bcrypt says fits it, and not by
/// its own text as such.
pub proof fn law_hashed_password_is_asked_of_bcrypt(stored: Seq<char>, given: Seq<char>)
    requires
        text::trimmed(stored) == stored,
        "$2"@.is_prefix_of(stored),
    ensures
        password_fits(stored, given) <==> outside::bcrypt_answer(stored, given) == Some(true),
{
}

/// A name and a password are accepted only together, exactly if the name is the
/// administrator's and the password fits; without a stored password none is.
pub proof fn law_name_and_password_are_needed(
    admin: AdminConfig,
    username: Seq<char>,
    password: Seq<char>,
)
    ensures
        admin.password is None ==> !credentials_fit(admin, username, password),
        username != admin.username@ ==> !credentials_fit(admin, username, password),
        admin.password matches Some(stored) ==> (credentials_fit(
            admin,
            admin.username@,
            password,
        ) <==> password_fits(stored@, password)),
{
}

/// A plus sign in a form is a space; every other character stays, in its place.
pub proof fn law_plus_is_a_space(s: Seq<char>, i: int)
    requires
        0 <= i < s.len(),
    ensures
        plus_as_space(s).len() == s.len(),
        s[i] == '+' ==> plus_as_space(s)[i] == ' ',
        s[i] != '+' ==> plus_as_space(s)[i] == s[i],
{
}

/// What the percent signs of a part decode to is what the part stands for; where they
/// decode to no text, the part stands for itself with its plus signs as spaces.
pub proof fn law_undecodable_part_stands_for_itself(raw: Seq<char>, decoded: Seq<char>)
    ensures
        component_text(raw, Some(decoded)) == decoded,
        component_text(raw, None) == plus_as_space(raw),
        !raw.contains('+') ==> component_text(raw, None) == raw,
{
    if !raw.contains('+') {
        assert forall|i: int| 0 <= i < raw.len() implies plus_as_space(raw)[i] == raw[i] by {
            assert(raw[i] != '+');
        }
        assert(plus_as_space(raw) =~= raw);
    }
}

proof fn lemma_fields_concat(a: Seq<Seq<char>>, b: Seq<Seq<char>>)
    ensures
        fields_in(a + b) == fields_in(a) + fields_in(b),
    decreases b.len(),
{
    if b.len() == 0 {
        assert(a + b =~= a);
        assert(fields_in(a + b) =~= fields_in(a) + fields_in(b));
    } else {
        lemma_fields_concat(a, b.drop_last());
        assert((a + b).drop_last() =~= a + b.drop_last());
        assert((a + b).last() == b.last());
        assert(fields_in(a + b) =~= fields_in(a) + fields_in(b));
    }
}

/// The fields of a form are those of its parts between the ampersands, in order.
pub proof fn law_form_is_read_part_by_part(a: Seq<char>, b: Seq<char>)
    ensures
        form_fields(a.push('&') + b) == form_fields(a) + form_fields(b),
{
    text::law_split_parts_at_the_separator(a, '&', b);
    lemma_fields_concat(text::split_on(a, '&'), text::split_on(b, '&'));
}

/// A part with an equals sign is one field: what stands in front of the first one is
/// the key, all behind it the value. A part without one is no field.
pub proof fn law_field_is_parted_at_the_equals_sign(key: Seq<char>, value: Seq<char>)
    requires
        !key.contains('='),
        !key.contains('&'),
        !value.contains('&'),
    ensures
        form_fields(key.push('=') + value) == seq![(form_text(key), form_text(value))],
        form_fields(key).len() == 0,
{
    let piece = key.push('=') + value;
    assert forall|i: int| 0 <= i < piece.len() implies #[trigger] piece[i] != '&' by {
        if i < key.len() {
            assert(piece[i] == key[i]);
        } else if i > key.len() {
            assert(piece[i] == value[i - key.len() - 1]);
        }
    }
    text::lemma_split_absent(piece, '&');
    text::lemma_split_absent(key, '&');
    text::law_split_parts_at_the_separator(key, '=', value);
    text::lemma_split_absent(key, '=');
    assert(key_part(piece) == key);
    assert(piece.skip(key.len() as int + 1) =~= value);
    assert(fields_in(Seq::<Seq<char>>::empty()).len() == 0);
    assert(seq![piece].drop_last() =~= Seq::<Seq<char>>::empty());
    assert(seq![key].drop_last() =~= Seq::<Seq<char>>::empty());
    assert(fields_in(seq![piece]) =~= seq![(form_text(key), form_text(value))]);
}

/// Of several fields of a name the first counts; without one there is no value.
pub proof fn law_first_field_counts(
    fields: Seq<(Seq<char>, Seq<char>)>,
    name: Seq<char>,
    at: int,
)
    ensures
        0 <= at < fields.len() && fields[at].0 == name && (forall|i: int|
            0 <= i < at ==> (#[trigger] fields[i]).0 != name) ==> first_field(fields, name)
            == Some(fields[at].1),
        (forall|i: int| 0 <= i < fields.len() ==> (#[trigger] fields[i]).0 != name)
            ==> first_field(fields, name) is None,
    decreases fields.len(),
{
    if fields.len() > 0 {
        let rest = fields.drop_first();
        law_first_field_counts(rest, name, at - 1);
        assert(fields.first() == fields[0]);
        assert forall|i: int| 0 <= i < rest.len() implies rest[i] == #[trigger] fields[i + 1] by {}
        if forall|i: int| 0 <= i < fields.len() ==> (#[trigger] fields[i]).0 != name {
            assert forall|i: int| 0 <= i < rest.len() implies (#[trigger] rest[i]).0 != name by {
                assert(rest[i] == fields[i + 1]);
            }
        }
        if 0 < at < fields.len() && forall|i: int|
            0 <= i < at ==> (#[trigger] fields[i]).0 != name {
            assert(rest[at - 1] == fields[at]);
            assert forall|i: int| 0 <= i < at - 1 implies (#[trigger] rest[i]).0 != name by {
                assert(rest[i] == fields[i + 1]);
            }
        }
    }
}

/// One is let in with the form of the login page exactly if the name and the password
/// in it are those of the administrator. What the two parts stand for goes by how
/// forms encode text.
pub proof fn law_login_form_is_checked(
    admin: AdminConfig,
    username_key: Seq<char>,
    username: Seq<char>,
    password_key: Seq<char>,
    password: Seq<char>,
)
    requires
        !username_key.contains('=') && !username_key.contains('&') && !username.contains('&'),
        !password_key.contains('=') && !password_key.contains('&') && !password.contains('&'),
        form_text(username_key) == "username"@,
        form_text(password_key) == "password"@,
    ensures
        ({
            let form = (username_key.push('=') + username).push('&') + (password_key.push('=')
                + password);
            form_outcome(admin, form) == if credentials_fit(
                admin,
                form_text(username),
                form_text(password),
            ) {
                LoginOutcome::Granted
            } else {
                LoginOutcome::Denied
            }
        }),
{
    reveal_strlit("username");
    reveal_strlit("password");
    let a = username_key.push('=') + username;
    let b = password_key.push('=') + password;
    law_form_is_read_part_by_part(a, b);
    law_field_is_parted_at_the_equals_sign(username_key, username);
    law_field_is_parted_at_the_equals_sign(password_key, password);
    let fields = form_fields(a.push('&') + b);
    let one = (form_text(username_key), form_text(username));
    let two = (form_text(password_key), form_text(password));
    assert(fields =~= seq![one, two]);
    assert("username"@[0] != "password"@[0]);
    law_first_field_counts(fields, "username"@, 0);
    law_first_field_counts(fields, "password"@, 1);
}

/// A field that is missing counts as an empty one.
pub proof fn law_missing_field_is_empty(fields: Seq<(Seq<char>, Seq<char>)>, name: Seq<char>)
    ensures
        first_field(fields, name) is None ==> field_or_empty(fields, name).len() == 0,
        first_field(fields, name) matches Some(value) ==> field_or_empty(fields, name) == value,
{
}

/// A token is read from the cookie of the session alone: it stands behind the name of
/// that cookie and an equals sign in a piece of a readable cookie header.
pub proof fn law_token_comes_from_the_session_cookie(headers: Seq<Header>)
    ensures
        cookie_token(headers) matches Some(token) ==> exists|i: int, j: int|
            0 <= i < headers.len() && headers[i].name@ == "cookie"@ && headers::is_readable(
                headers[i].value@,
            ) && 0 <= j < text::split_on(headers::value_text(headers[i].value@), ';').len()
                && text::trimmed(
                #[trigger] text::split_on(headers::value_text(headers[i].value@), ';')[j],
            ) == "wh_admin_session="@ + token,
    decreases headers.len(),
{
    if headers.len() > 0 {
        let first = headers.first();
        let pieces = text::split_on(headers::value_text(first.value@), ';');
        let here = if first.name@ == "cookie"@ && headers::is_readable(first.value@) {
            token_in(pieces)
        } else {
            None
        };
        match here {
            Some(token) => {
                lemma_token_in(pieces);
                let j = choose|j: int|
                    0 <= j < pieces.len() && text::trimmed(#[trigger] pieces[j])
                        == "wh_admin_session="@ + token;
                assert(headers[0] == first);
                assert(text::split_on(headers::value_text(headers[0].value@), ';')[j]
                    == pieces[j]);
            },
            None => {
                let rest = headers.drop_first();
                law_token_comes_from_the_session_cookie(rest);
                if cookie_token(rest) is Some {
                    let token = cookie_token(rest)->0;
                    let (i, j) = choose|i: int, j: int|
                        0 <= i < rest.len() && rest[i].name@ == "cookie"@ && headers::is_readable(
                            rest[i].value@,
                        ) && 0 <= j < text::split_on(
                            headers::value_text(rest[i].value@),
                            ';',
                        ).len() && text::trimmed(
                            #[trigger] text::split_on(headers::value_text(rest[i].value@), ';')[j],
                        ) == "wh_admin_session="@ + token;
                    assert(headers[i + 1] == rest[i]);
                    assert(text::split_on(headers::value_text(headers[i + 1].value@), ';')[j]
                        == text::split_on(headers::value_text(rest[i].value@), ';')[j]);
                }
            },
        }
    }
}

proof fn lemma_token_in(pieces: Seq<Seq<char>>)
    ensures
        token_in(pieces) matches Some(token) ==> exists|j: int|
            0 <= j < pieces.len() && text::trimmed(#[trigger] pieces[j]) == "wh_admin_session="@
                + token,
    decreases pieces.len(),
{
    if pieces.len() > 0 {
        reveal_strlit("wh_admin_session");
        reveal_strlit("=");
        reveal_strlit("wh_admin_session=");
        text::lemma_two(SESSION_COOKIE@, "="@);
        let mark = cookie_mark();
        assert(mark =~= "wh_admin_session="@);
        let piece = text::trimmed(pieces.first());
        if mark.is_prefix_of(piece) {
            assert(piece =~= mark + piece.skip(mark.len() as int));
            assert(pieces[0] == pieces.first());
        } else {
            let rest = pieces.drop_first();
            lemma_token_in(rest);
            if token_in(rest) is Some {
                let token = token_in(rest)->0;
                let j = choose|j: int|
                    0 <= j < rest.len() && text::trimmed(#[trigger] rest[j])
                        == "wh_admin_session="@ + token;
                assert(pieces[j + 1] == rest[j]);
            }
        }
    }
}

/// The pages are open to everybody where no password is set, and otherwise to one who
/// brings the token of a session that has not ended, and to nobody else.
pub proof fn law_only_a_session_opens_the_pages(
    admin: AdminConfig,
    sessions: Map<Seq<char>, i128>,
    headers: Seq<Header>,
    now: i128,
)
    ensures
        admin.password is None ==> may_enter(admin, sessions, headers, now),
        admin.password is Some && cookie_token(headers) is None ==> !may_enter(
            admin,
            sessions,
            headers,
            now,
        ),
        admin.password is Some && cookie_token(headers) is Some ==> (may_enter(
            admin,
            sessions,
            headers,
            now,
        ) <==> sessions.contains_key(cookie_token(headers)->0)
            && sessions[cookie_token(headers)->0] > now),
{
}

/// The session cookie is found wherever it stands: behind other cookies in its header,
/// and in a later header where the earlier ones do not hold it.
pub proof fn law_session_cookie_is_found(
    headers: Seq<Header>,
    at: int,
    place: int,
    token: Seq<char>,
)
    requires
        0 <= at < headers.len(),
        headers[at].name@ == "cookie"@,
        headers::is_readable(headers[at].value@),
        ({
            let pieces = text::split_on(headers::value_text(headers[at].value@), ';');
            &&& 0 <= place < pieces.len()
            &&& text::trimmed(pieces[place]) == "wh_admin_session="@ + token
            &&& forall|j: int|
                0 <= j < place ==> !"wh_admin_session="@.is_prefix_of(
                    text::trimmed(#[trigger] pieces[j]),
                )
        }),
        forall|i: int| 0 <= i < at ==> !holds_session_cookie(#[trigger] headers[i]),
    ensures
        cookie_token(headers) == Some(token),
    decreases at,
{
    if at == 0 {
        let pieces = text::split_on(headers::value_text(headers[0].value@), ';');
        lemma_piece_is_found(pieces, place, token);
    } else {
        let rest = headers.drop_first();
        assert(!holds_session_cookie(headers[0]));
        let pieces = text::split_on(headers::value_text(headers[0].value@), ';');
        if headers[0].name@ == "cookie"@ && headers::is_readable(headers[0].value@) {
            lemma_no_piece_is_found(pieces);
        }
        assert(rest[at - 1] == headers[at]);
        assert forall|i: int| 0 <= i < at - 1 implies !holds_session_cookie(#[trigger] rest[i]) by {
            assert(rest[i] == headers[i + 1]);
        }
        law_session_cookie_is_found(rest, at - 1, place, token);
    }
}

/// A readable cookie header holds the session cookie.
pub open spec fn holds_session_cookie(header: Header) -> bool {
    let pieces = text::split_on(headers::value_text(header.value@), ';');
    header.name@ == "cookie"@ && headers::is_readable(header.value@) && exists|j: int|
        0 <= j < pieces.len() && "wh_admin_session="@.is_prefix_of(
            text::trimmed(#[trigger] pieces[j]),
        )
}

proof fn lemma_cookie_mark()
    ensures
        cookie_mark() == "wh_admin_session="@,
{
    reveal_strlit("wh_admin_session");
    reveal_strlit("=");
    reveal_strlit("wh_admin_session=");
    text::lemma_two(SESSION_COOKIE@, "="@);
    assert(cookie_mark() =~= "wh_admin_session="@);
}

proof fn lemma_piece_is_found(pieces: Seq<Seq<char>>, place: int, token: Seq<char>)
    requires
        0 <= place < pieces.len(),
        text::trimmed(pieces[place]) == "wh_admin_session="@ + token,
        forall|j: int|
            0 <= j < place ==> !"wh_admin_session="@.is_prefix_of(
                text::trimmed(#[trigger] pieces[j]),
            ),
    ensures
        token_in(pieces) == Some(token),
    decreases place,
{
    lemma_cookie_mark();
    let mark = cookie_mark();
    if place == 0 {
        let piece = text::trimmed(pieces[0]);
        assert(mark =~= piece.subrange(0, mark.len() as int));
        assert(piece.skip(mark.len() as int) =~= token);
    } else {
        let rest = pieces.drop_first();
        assert(!mark.is_prefix_of(text::trimmed(pieces[0])));
        assert(rest[place - 1] == pieces[place]);
        assert forall|j: int| 0 <= j < place - 1 implies !"wh_admin_session="@.is_prefix_of(
            text::trimmed(#[trigger] rest[j]),
        ) by {
            assert(rest[j] == pieces[j + 1]);
        }
        lemma_piece_is_found(rest, place - 1, token);
    }
}

proof fn lemma_no_piece_is_found(pieces: Seq<Seq<char>>)
    requires
        forall|j: int|
            0 <= j < pieces.len() ==> !"wh_admin_session="@.is_prefix_of(
                text::trimmed(#[trigger] pieces[j]),
            ),
    ensures
        token_in(pieces) is None,
    decreases pieces.len(),
{
    lemma_cookie_mark();
    if pieces.len() > 0 {
        let rest = pieces.drop_first();
        assert(!cookie_mark().is_prefix_of(text::trimmed(pieces[0])));
        assert forall|j: int| 0 <= j < rest.len() implies !"wh_admin_session="@.is_prefix_of(
            text::trimmed(#[trigger] rest[j]),
        ) by {
            assert(rest[j] == pieces[j + 1]);
        }
        lemma_no_piece_is_found(rest);
    }
}

/// A part of a form stands for what its text decodes to once its plus signs are
/// spaces; for that text itself where it decodes to none.
pub proof fn law_form_text_is_decoded(raw: Seq<char>)
    ensures
        ({
            let spaced = raw.map_values(
                |c: char|
                    if c == '+' {
                        ' '
                    } else {
                        c
                    },
            );
            form_text(raw) == match outside::url_decoded(spaced) {
                Some(decoded) => decoded,
                None => spaced,
            }
        }),
{
    let spaced = raw.map_values(
        |c: char|
            if c == '+' {
                ' '
            } else {
                c
            },
    );
    assert(plus_as_space(raw) =~= spaced);
}

/// What becomes of a request to sign in: none is needed without a password; a form that
/// could not be read is told as such; otherwise the name and the password decide.
pub proof fn law_check_login_goes_by_the_form(
    admin: &AdminConfig,
    body: Option<&[u8]>,
    outcome: LoginOutcome,
)
    requires
        call_ensures(check_login, (admin, body), outcome),
    ensures
        outcome == LoginOutcome::NotNeeded <==> admin.password is None,
        outcome == LoginOutcome::Unreadable <==> admin.password is Some && body is None,
        outcome == LoginOutcome::Granted <==> admin.password is Some && body is Some && ({
            let fields = form_fields(outside::lossy_text(body->0@));
            &&& field_or_empty(fields, "username"@) == admin.username@
            &&& password_fits(admin.password->0@, field_or_empty(fields, "password"@))
        }),
{
}

/// When the server starts, it warns of a missing password and of one that is stored as
/// it is, and of nothing where a hash is stored.
pub proof fn law_startup_warns_of_weak_passwords(
    admin: &AdminConfig,
    warning: Option<&'static str>,
)
    requires
        call_ensures(startup_warning, (admin,), warning),
    ensures
        warning is None <==> admin.password is Some && "$2"@.is_prefix_of(
            admin.password->0@,
        ),
        admin.password is None ==> warning->0@
            == "admin.password is not configured; the admin UI requires no login"@,
{
}

/// The administrator is known by name and password together.
pub proof fn law_credentials_match_needs_both(
    admin: &AdminConfig,
    username: &str,
    password: &str,
    fit: bool,
)
    requires
        call_ensures(credentials_match, (admin, username, password), fit),
    ensures
        fit <==> admin.password is Some && username@ == admin.username@ && password_fits(
            admin.password->0@,
            password@,
        ),
{
}

} // verus!
