//! The connection form: its fields, the order in which they are visited, and
//! the profile that it describes.

use crate::text::{chars_of, concat3, decimal, digit_char, number_text};
use vstd::prelude::*;

verus! {

/// How a remote session authenticates.
#[derive(Debug)]
pub enum RemoteAuth {
    Password { password: String },
    KeyFile { path: String, passphrase: Option<String> },
}

/// A saved remote endpoint.
#[derive(Debug)]
pub struct RemoteProfile {
    pub name: String,
    pub host: String,
    pub port: u16,
    pub user: String,
    pub auth: RemoteAuth,
    pub default_path: String,
}

impl Clone for RemoteAuth {
    fn clone(&self) -> (r: Self)
        ensures
            r == *self,
    {
        match self {
            RemoteAuth::Password { password } => RemoteAuth::Password {
                password: password.clone(),
            },
            RemoteAuth::KeyFile { path, passphrase } => RemoteAuth::KeyFile {
                path: path.clone(),
                passphrase: match passphrase {
                    Some(text) => Some(text.clone()),
                    None => None,
                },
            },
        }
    }
}

impl Clone for RemoteProfile {
    fn clone(&self) -> (r: Self)
        ensures
            r == *self,
    {
        RemoteProfile {
            name: self.name.clone(),
            host: self.host.clone(),
            port: self.port,
            user: self.user.clone(),
            auth: self.auth.clone(),
            default_path: self.default_path.clone(),
        }
    }
}

/// The credentials of a profile, as text.
pub enum AuthView {
    Password { password: Seq<char> },
    KeyFile { path: Seq<char>, passphrase: Option<Seq<char>> },
}

/// A profile, as text.
pub struct ProfileView {
    pub name: Seq<char>,
    pub host: Seq<char>,
    pub port: u16,
    pub user: Seq<char>,
    pub auth: AuthView,
    pub default_path: Seq<char>,
}

/// A text that may be given.
pub open spec fn given_text(s: Option<&str>) -> Option<Seq<char>> {
    match s {
        Some(text) => Some(text@),
        None => None,
    }
}

/// The host by which a machine is known: its canonical form, where it has one.
pub open spec fn host_in_use(host: Seq<char>, canonical: Option<Seq<char>>) -> Seq<char> {
    match canonical {
        Some(name) => name,
        None => host,
    }
}

/// The host by which a machine is known.
pub fn used_host<'a>(host: &'a str, canonical: Option<&'a str>) -> (r: &'a str)
    ensures
        r@ == host_in_use(host@, given_text(canonical)),
{
    match canonical {
        Some(name) => name,
        None => host,
    }
}

/// The text that an optional string holds.
pub open spec fn optional_text(s: Option<String>) -> Option<Seq<char>> {
    match s {
        Some(t) => Some(t@),
        None => None,
    }
}

impl View for RemoteAuth {
    type V = AuthView;

    open spec fn view(&self) -> AuthView {
        match self {
            RemoteAuth::Password { password } => AuthView::Password { password: password@ },
            RemoteAuth::KeyFile { path, passphrase } => AuthView::KeyFile {
                path: path@,
                passphrase: optional_text(*passphrase),
            },
        }
    }
}

impl View for RemoteProfile {
    type V = ProfileView;

    open spec fn view(&self) -> ProfileView {
        ProfileView {
            name: self.name@,
            host: self.host@,
            port: self.port,
            user: self.user@,
            auth: self.auth@,
            default_path: self.default_path@,
        }
    }
}

/// A field of the connection form.
#[derive(Debug, Clone, Copy, PartialEq, Eq, Structural)]
pub enum RemoteField {
    Host,
    Port,
    User,
    AuthType,
    Credential,
    Passphrase,
}

/// The kind of credential that the form asks for.
#[derive(Debug, Clone, Copy, PartialEq, Eq, Structural)]
pub enum RemoteAuthType {
    Password,
    KeyFile,
}

/// The connection form while it is filled in.
#[derive(Debug)]
pub struct RemoteConnectState {
    pub selected_field: RemoteField,
    pub host: String,
    pub port: String,
    pub user: String,
    pub auth_type: RemoteAuthType,
    pub password: String,
    pub key_path: String,
    pub passphrase: String,
    pub remote_path: String,
    pub profile_name: String,
    pub error: Option<String>,
    pub cursor_pos: usize,
    /// The profile under edit, where the form edits one.
    pub editing_profile_index: Option<usize>,
}

impl Clone for RemoteConnectState {
    fn clone(&self) -> (r: Self)
        ensures
            r == *self,
    {
        RemoteConnectState {
            selected_field: self.selected_field,
            host: self.host.clone(),
            port: self.port.clone(),
            user: self.user.clone(),
            auth_type: self.auth_type,
            password: self.password.clone(),
            key_path: self.key_path.clone(),
            passphrase: self.passphrase.clone(),
            remote_path: self.remote_path.clone(),
            profile_name: self.profile_name.clone(),
            error: match &self.error {
                Some(text) => Some(text.clone()),
                None => None,
            },
            cursor_pos: self.cursor_pos,
            editing_profile_index: self.editing_profile_index,
        }
    }
}

/// The form, as text.
pub struct FormView {
    pub selected_field: RemoteField,
    pub host: Seq<char>,
    pub port: Seq<char>,
    pub user: Seq<char>,
    pub auth_type: RemoteAuthType,
    pub password: Seq<char>,
    pub key_path: Seq<char>,
    pub passphrase: Seq<char>,
    pub remote_path: Seq<char>,
    pub profile_name: Seq<char>,
    pub error: Option<Seq<char>>,
    pub cursor_pos: usize,
    pub editing_profile_index: Option<usize>,
}

impl View for RemoteConnectState {
    type V = FormView;

    open spec fn view(&self) -> FormView {
        FormView {
            selected_field: self.selected_field,
            host: self.host@,
            port: self.port@,
            user: self.user@,
            auth_type: self.auth_type,
            password: self.password@,
            key_path: self.key_path@,
            passphrase: self.passphrase@,
            remote_path: self.remote_path@,
            profile_name: self.profile_name@,
            error: optional_text(self.error),
            cursor_pos: self.cursor_pos,
            editing_profile_index: self.editing_profile_index,
        }
    }
}

pub open spec fn is_digit(c: char) -> bool {
    '0' <= c && c <= '9'
}

/// The number that a row of digits writes.
pub open spec fn digits_value(s: Seq<char>) -> nat
    decreases s.len(),
{
    if s.len() == 0 {
        0
    } else {
        digits_value(s.drop_last()) * 10 + (s.last() as nat - '0' as nat) as nat
    }
}

/// The text without a plus sign at its front.
pub open spec fn unsigned_part(s: Seq<char>) -> Seq<char> {
    if s.len() > 0 && s[0] == '+' {
        s.skip(1)
    } else {
        s
    }
}

pub open spec fn all_digits(s: Seq<char>) -> bool {
    forall|i: int| 0 <= i < s.len() ==> is_digit(#[trigger] s[i])
}

/// The port that a text writes: digits, with at most one plus sign before them,
/// whose number a port can hold.
pub open spec fn port_of(s: Seq<char>) -> Option<u16> {
    let digits = unsigned_part(s);
    if digits.len() > 0 && all_digits(digits) && digits_value(digits) <= u16::MAX {
        Some(digits_value(digits) as u16)
    } else {
        None
    }
}

proof fn lemma_digits_value_grows(s: Seq<char>, i: int)
    requires
        0 <= i <= s.len(),
        all_digits(s),
    ensures
        digits_value(s.take(i)) <= digits_value(s),
    decreases s.len() - i,
{
    if i < s.len() {
        lemma_digits_value_grows(s, i + 1);
        assert(s.take(i + 1).drop_last() == s.take(i));
    } else {
        assert(s.take(i) == s);
    }
}

/// The port that the text writes, if it writes one.
pub fn parse_port(text: &str) -> (r: Option<u16>)
    ensures
        r == port_of(text@),
{
    let v = chars_of(text);
    let start: usize = if v.len() > 0 && v[0] == '+' { 1 } else { 0 };
    let ghost digits = unsigned_part(text@);
    assert(digits == text@.skip(start as int));
    if start == v.len() {
        return None;
    }
    let mut value: u32 = 0;
    let mut i: usize = start;
    assert(digits.take(0) == Seq::<char>::empty());
    while i < v.len()
        invariant
            start <= i <= v.len(),
            v@ == text@,
            digits == v@.skip(start as int),
            value == digits_value(digits.take(i - start)),
            value <= u16::MAX,
            forall|j: int| 0 <= j < i - start ==> is_digit(#[trigger] digits[j]),
            digits == unsigned_part(text@),
        decreases v.len() - i,
    {
        let c = v[i];
        assert(digits[i - start] == c);
        if !('0' <= c && c <= '9') {
            assert(!is_digit(digits[i - start]));
            return None;
        }
        let d: u32 = c as u32 - '0' as u32;
        assert(digits.take(i + 1 - start).drop_last() == digits.take(i - start));
        value = value * 10 + d;
        assert(value == digits_value(digits.take(i + 1 - start)));
        if value > 65535 {
            proof {
                if all_digits(digits) {
                    lemma_digits_value_grows(digits, i + 1 - start);
                }
            }
            return None;
        }
        i += 1;
    }
    assert(digits.take(i - start) == digits);
    Some(value as u16)
}

/// A profile written into a fresh form. `canonical` is its host in canonical form,
/// where it has one.
pub open spec fn form_of(p: ProfileView, index: usize, canonical: Option<Seq<char>>) -> FormView {
    FormView {
        selected_field: RemoteField::Host,
        host: host_in_use(p.host, canonical),
        port: decimal(p.port as nat),
        user: p.user,
        auth_type: match p.auth {
            AuthView::Password { .. } => RemoteAuthType::Password,
            AuthView::KeyFile { .. } => RemoteAuthType::KeyFile,
        },
        password: match p.auth {
            AuthView::Password { password } => password,
            AuthView::KeyFile { .. } => Seq::empty(),
        },
        key_path: match p.auth {
            AuthView::Password { .. } => "~/.ssh/id_rsa"@,
            AuthView::KeyFile { path, .. } => path,
        },
        passphrase: match p.auth {
            AuthView::KeyFile { passphrase: Some(t), .. } => t,
            _ => Seq::empty(),
        },
        remote_path: p.default_path,
        profile_name: p.name,
        error: None,
        cursor_pos: 0,
        editing_profile_index: Some(index),
    }
}

/// The profile that a form describes. `canonical` is its host in canonical form, where
/// it has one.
pub open spec fn profile_of(f: FormView, canonical: Option<Seq<char>>) -> ProfileView {
    ProfileView {
        name: if f.profile_name.len() == 0 {
            f.user + "@"@ + host_in_use(f.host, canonical)
        } else {
            f.profile_name
        },
        host: host_in_use(f.host, canonical),
        port: match port_of(f.port) {
            Some(p) => p,
            None => 22,
        },
        user: f.user,
        auth: match f.auth_type {
            RemoteAuthType::Password => AuthView::Password { password: f.password },
            RemoteAuthType::KeyFile => AuthView::KeyFile {
                path: f.key_path,
                passphrase: if f.passphrase.len() == 0 { None } else { Some(f.passphrase) },
            },
        },
        default_path: f.remote_path,
    }
}

/// The field that follows `field`, around the form.
pub open spec fn field_after(field: RemoteField, auth: RemoteAuthType) -> RemoteField {
    match field {
        RemoteField::Host => RemoteField::Port,
        RemoteField::Port => RemoteField::User,
        RemoteField::User => RemoteField::AuthType,
        RemoteField::AuthType => RemoteField::Credential,
        RemoteField::Credential => if auth == RemoteAuthType::KeyFile {
            RemoteField::Passphrase
        } else {
            RemoteField::Host
        },
        RemoteField::Passphrase => RemoteField::Host,
    }
}

/// The field that comes before `field`, around the form.
pub open spec fn field_before(field: RemoteField, auth: RemoteAuthType) -> RemoteField {
    match field {
        RemoteField::Host => if auth == RemoteAuthType::KeyFile {
            RemoteField::Passphrase
        } else {
            RemoteField::Credential
        },
        RemoteField::Port => RemoteField::Host,
        RemoteField::User => RemoteField::Port,
        RemoteField::AuthType => RemoteField::User,
        RemoteField::Credential => RemoteField::AuthType,
        RemoteField::Passphrase => RemoteField::Credential,
    }
}

/// The text field that typing goes to.
pub enum TextField {
    Host,
    Port,
    User,
    Password,
    KeyPath,
    Passphrase,
}

pub open spec fn typed_field(field: RemoteField, auth: RemoteAuthType) -> TextField {
    match field {
        RemoteField::Host => TextField::Host,
        RemoteField::Port => TextField::Port,
        RemoteField::User => TextField::User,
        RemoteField::AuthType => TextField::Password,
        RemoteField::Credential => if auth == RemoteAuthType::KeyFile {
            TextField::KeyPath
        } else {
            TextField::Password
        },
        RemoteField::Passphrase => TextField::Passphrase,
    }
}

/// What choosing the other way to sign in does.
pub open spec fn auth_type_toggled(
    before: RemoteConnectState,
    after: RemoteConnectState,
) -> bool {
    after == (RemoteConnectState {
        auth_type: if before.auth_type == RemoteAuthType::Password {
            RemoteAuthType::KeyFile
        } else {
            RemoteAuthType::Password
        },
        ..before
    })
}

impl RemoteConnectState {
    /// The field that typing goes to, as text.
    pub open spec fn typed(self) -> String {
        match typed_field(self.selected_field, self.auth_type) {
            TextField::Host => self.host,
            TextField::Port => self.port,
            TextField::User => self.user,
            TextField::Password => self.password,
            TextField::KeyPath => self.key_path,
            TextField::Passphrase => self.passphrase,
        }
    }

    /// The form with the field that typing goes to replaced.
    pub open spec fn with_typed(self, text: String) -> RemoteConnectState {
        match typed_field(self.selected_field, self.auth_type) {
            TextField::Host => RemoteConnectState { host: text, ..self },
            TextField::Port => RemoteConnectState { port: text, ..self },
            TextField::User => RemoteConnectState { user: text, ..self },
            TextField::Password => RemoteConnectState { password: text, ..self },
            TextField::KeyPath => RemoteConnectState { key_path: text, ..self },
            TextField::Passphrase => RemoteConnectState { passphrase: text, ..self },
        }
    }

    /// An empty form.
    pub fn new() -> (r: Self)
        ensures
            r@ == (FormView {
                selected_field: RemoteField::Host,
                host: Seq::empty(),
                port: "22"@,
                user: Seq::empty(),
                auth_type: RemoteAuthType::Password,
                password: Seq::empty(),
                key_path: "~/.ssh/id_rsa"@,
                passphrase: Seq::empty(),
                remote_path: "/"@,
                profile_name: Seq::empty(),
                error: None,
                cursor_pos: 0,
                editing_profile_index: None,
            }),
    {
        RemoteConnectState {
            selected_field: RemoteField::Host,
            host: String::new(),
            port: "22".to_owned(),
            user: String::new(),
            auth_type: RemoteAuthType::Password,
            password: String::new(),
            key_path: "~/.ssh/id_rsa".to_owned(),
            passphrase: String::new(),
            remote_path: "/".to_owned(),
            profile_name: String::new(),
            error: None,
            cursor_pos: 0,
            editing_profile_index: None,
        }
    }

    /// A form that edits the profile at `profile_index`. `canonical` is its host in
    /// canonical form, where it has one.
    pub fn from_profile(profile: &RemoteProfile, profile_index: usize, canonical: Option<&str>) -> (r:
        Self)
        ensures
            r@ == form_of(profile@, profile_index, given_text(canonical)),
    {
        let (auth_type, password, key_path, passphrase) = match &profile.auth {
            RemoteAuth::Password { password } => (
                RemoteAuthType::Password,
                password.clone(),
                "~/.ssh/id_rsa".to_owned(),
                String::new(),
            ),
            RemoteAuth::KeyFile { path, passphrase } => (
                RemoteAuthType::KeyFile,
                String::new(),
                path.clone(),
                match passphrase {
                    Some(text) => text.clone(),
                    None => String::new(),
                },
            ),
        };
        RemoteConnectState {
            selected_field: RemoteField::Host,
            host: used_host(profile.host.as_str(), canonical).to_owned(),
            port: number_text(profile.port as u64),
            user: profile.user.clone(),
            auth_type,
            password,
            key_path,
            passphrase,
            remote_path: profile.default_path.clone(),
            profile_name: profile.name.clone(),
            error: None,
            cursor_pos: 0,
            editing_profile_index: Some(profile_index),
        }
    }

    /// A form for an endpoint that was typed as a path: the next thing to fill
    /// in is the user where none was given, else the credential. `canonical` is the
    /// host in canonical form, where it has one.
    pub fn from_parsed(
        user: &str,
        host: &str,
        canonical: Option<&str>,
        port: u16,
        path: &str,
    ) -> (r: Self)
        ensures
            r@ == (FormView {
                selected_field: if user@.len() == 0 {
                    RemoteField::User
                } else {
                    RemoteField::AuthType
                },
                host: host_in_use(host@, given_text(canonical)),
                port: decimal(port as nat),
                user: user@,
                auth_type: RemoteAuthType::Password,
                password: Seq::empty(),
                key_path: "~/.ssh/id_rsa"@,
                passphrase: Seq::empty(),
                remote_path: path@,
                profile_name: Seq::empty(),
                error: None,
                cursor_pos: 0,
                editing_profile_index: None,
            }),
    {
        RemoteConnectState {
            selected_field: if user.is_empty() {
                RemoteField::User
            } else {
                RemoteField::AuthType
            },
            host: used_host(host, canonical).to_owned(),
            port: number_text(port as u64),
            user: user.to_owned(),
            auth_type: RemoteAuthType::Password,
            password: String::new(),
            key_path: "~/.ssh/id_rsa".to_owned(),
            passphrase: String::new(),
            remote_path: path.to_owned(),
            profile_name: String::new(),
            error: None,
            cursor_pos: 0,
            editing_profile_index: None,
        }
    }

    /// Whether the selected field is the kind of credential.
    pub fn is_auth_type_field(&self) -> (r: bool)
        ensures
            r == (self.selected_field == RemoteField::AuthType),
    {
        self.selected_field == RemoteField::AuthType
    }

    /// Switches between password and key file.
    pub fn toggle_auth_type(&mut self)
        ensures
            auth_type_toggled(*old(self), *final(self)),
    {
        self.auth_type = match self.auth_type {
            RemoteAuthType::Password => RemoteAuthType::KeyFile,
            RemoteAuthType::KeyFile => RemoteAuthType::Password,
        };
    }

    /// The field that follows the selected one.
    pub fn next_field(&self) -> (r: RemoteField)
        ensures
            r == field_after(self.selected_field, self.auth_type),
    {
        match self.selected_field {
            RemoteField::Host => RemoteField::Port,
            RemoteField::Port => RemoteField::User,
            RemoteField::User => RemoteField::AuthType,
            RemoteField::AuthType => RemoteField::Credential,
            RemoteField::Credential => match self.auth_type {
                RemoteAuthType::Password => RemoteField::Host,
                RemoteAuthType::KeyFile => RemoteField::Passphrase,
            },
            RemoteField::Passphrase => RemoteField::Host,
        }
    }

    /// The field that comes before the selected one.
    pub fn prev_field(&self) -> (r: RemoteField)
        ensures
            r == field_before(self.selected_field, self.auth_type),
    {
        match self.selected_field {
            RemoteField::Host => match self.auth_type {
                RemoteAuthType::Password => RemoteField::Credential,
                RemoteAuthType::KeyFile => RemoteField::Passphrase,
            },
            RemoteField::Port => RemoteField::Host,
            RemoteField::User => RemoteField::Port,
            RemoteField::AuthType => RemoteField::User,
            RemoteField::Credential => RemoteField::AuthType,
            RemoteField::Passphrase => RemoteField::Credential,
        }
    }

    /// The text that typing goes to.
    pub fn active_field_mut(&mut self) -> (r: &mut String)
        ensures
            *r == old(self).typed(),
            *final(self) == old(self).with_typed(*final(r)),
    {
        match self.selected_field {
            RemoteField::Host => &mut self.host,
            RemoteField::Port => &mut self.port,
            RemoteField::User => &mut self.user,
            RemoteField::AuthType => &mut self.password,
            RemoteField::Credential => match self.auth_type {
                RemoteAuthType::Password => &mut self.password,
                RemoteAuthType::KeyFile => &mut self.key_path,
            },
            RemoteField::Passphrase => &mut self.passphrase,
        }
    }

    /// What the selected field shows.
    pub fn active_field_value(&self) -> (r: &str)
        ensures
            r@ == if self.selected_field == RemoteField::AuthType {
                if self.auth_type == RemoteAuthType::Password {
                    "Password"@
                } else {
                    "Key File"@
                }
            } else {
                self.typed()@
            },
    {
        match self.selected_field {
            RemoteField::Host => self.host.as_str(),
            RemoteField::Port => self.port.as_str(),
            RemoteField::User => self.user.as_str(),
            RemoteField::AuthType => match self.auth_type {
                RemoteAuthType::Password => "Password",
                RemoteAuthType::KeyFile => "Key File",
            },
            RemoteField::Credential => match self.auth_type {
                RemoteAuthType::Password => self.password.as_str(),
                RemoteAuthType::KeyFile => self.key_path.as_str(),
            },
            RemoteField::Passphrase => self.passphrase.as_str(),
        }
    }

    /// The profile that the form describes. `canonical` is its host in canonical form,
    /// where it has one.
    pub fn to_profile(&self, canonical: Option<&str>) -> (r: RemoteProfile)
        ensures
            r@ == profile_of(self@, given_text(canonical)),
    {
        let port: u16 = match parse_port(self.port.as_str()) {
            Some(p) => p,
            None => 22,
        };
        let auth = match self.auth_type {
            RemoteAuthType::Password => RemoteAuth::Password { password: self.password.clone() },
            RemoteAuthType::KeyFile => RemoteAuth::KeyFile {
                path: self.key_path.clone(),
                passphrase: if self.passphrase.as_str().is_empty() {
                    None
                } else {
                    Some(self.passphrase.clone())
                },
            },
        };
        let host = used_host(self.host.as_str(), canonical).to_owned();
        let name = if self.profile_name.as_str().is_empty() {
            concat3(self.user.as_str(), "@", host.as_str())
        } else {
            self.profile_name.clone()
        };
        RemoteProfile {
            name,
            host,
            port,
            user: self.user.clone(),
            auth,
            default_path: self.remote_path.clone(),
        }
    }
}

/// Stepping forward and then back, or back and then forward, ends where it
/// began, on every field that the form shows: the passphrase is shown with a
/// key file only.
pub proof fn law_field_steps_are_inverse(field: RemoteField, auth: RemoteAuthType)
    requires
        field == RemoteField::Passphrase ==> auth == RemoteAuthType::KeyFile,
    ensures
        field_before(field_after(field, auth), auth) == field,
        field_after(field_before(field, auth), auth) == field,
{
}

proof fn lemma_decimal_value(n: nat)
    ensures
        decimal(n).len() > 0,
        all_digits(decimal(n)),
        digits_value(decimal(n)) == n,
    decreases n,
{
    if n < 10 {
        let d = decimal(n);
        assert(d.drop_last() == Seq::<char>::empty());
        assert(digits_value(Seq::<char>::empty()) == 0);
        assert(d.last() == digit_char(n));
        assert(digits_value(d) == digits_value(d.drop_last()) * 10 + (d.last() as nat
            - '0' as nat) as nat);
    } else {
        lemma_decimal_value(n / 10);
        let head = decimal(n / 10);
        let whole = decimal(n);
        assert(whole.drop_last() == head);
        assert forall|i: int| 0 <= i < whole.len() implies is_digit(#[trigger] whole[i]) by {
            if i < head.len() {
                assert(whole[i] == head[i]);
            }
        }
    }
}

/// A port that is written out and read back is the same port.
pub proof fn law_port_round_trip(port: u16)
    ensures
        port_of(decimal(port as nat)) == Some(port),
{
    lemma_decimal_value(port as nat);
    let d = decimal(port as nat);
    assert(is_digit(d[0]));
}

/// Editing a profile and saving the form unchanged keeps the profile, up to the
/// canonical form of its host and an empty passphrase, which is none. `shown` is the
/// canonical form of the profile's host, and `saved` that of the host in the form.
pub proof fn law_form_round_trip(
    p: ProfileView,
    index: usize,
    shown: Option<Seq<char>>,
    saved: Option<Seq<char>>,
)
    requires
        p.name.len() > 0,
    ensures
        profile_of(form_of(p, index, shown), saved).name == p.name,
        profile_of(form_of(p, index, shown), saved).host == host_in_use(
            host_in_use(p.host, shown),
            saved,
        ),
        profile_of(form_of(p, index, shown), saved).port == p.port,
        profile_of(form_of(p, index, shown), saved).user == p.user,
        profile_of(form_of(p, index, shown), saved).default_path == p.default_path,
        profile_of(form_of(p, index, shown), saved).auth == match p.auth {
            AuthView::Password { password } => AuthView::Password { password },
            AuthView::KeyFile { path, passphrase } => AuthView::KeyFile {
                path,
                passphrase: match passphrase {
                    Some(t) => if t.len() == 0 { None } else { Some(t) },
                    None => None,
                },
            },
        },
{
    law_port_round_trip(p.port);
}

/// The fields of the form come in their order; the last one is followed by the first. A
/// passphrase is asked for with a key only.
pub proof fn law_fields_come_in_order(auth: RemoteAuthType)
    ensures
        field_after(RemoteField::Host, auth) == RemoteField::Port,
        field_after(RemoteField::Port, auth) == RemoteField::User,
        field_after(RemoteField::User, auth) == RemoteField::AuthType,
        field_after(RemoteField::AuthType, auth) == RemoteField::Credential,
        field_after(RemoteField::Credential, RemoteAuthType::KeyFile) == RemoteField::Passphrase,
        field_after(RemoteField::Passphrase, auth) == RemoteField::Host,
        field_after(RemoteField::Credential, RemoteAuthType::Password) == RemoteField::Host,
{
}

/// What is typed goes into the field that is chosen and comes back from it; no other field
/// changes. The credential is the password or the key, as one signs in.
pub proof fn law_typing_changes_the_chosen_field(form: RemoteConnectState, text: String)
    ensures
        form.with_typed(text).typed() == text,
        form.with_typed(form.typed()) == form,
        form.with_typed(text).selected_field == form.selected_field,
        form.with_typed(text).auth_type == form.auth_type,
        form.selected_field != RemoteField::Host ==> form.with_typed(text).host == form.host,
        form.selected_field != RemoteField::Port ==> form.with_typed(text).port == form.port,
        form.selected_field != RemoteField::User ==> form.with_typed(text).user == form.user,
        form.selected_field != RemoteField::Passphrase ==> form.with_typed(text).passphrase
            == form.passphrase,
        form.selected_field == RemoteField::Host ==> form.with_typed(text).host == text,
        form.selected_field == RemoteField::Port ==> form.with_typed(text).port == text,
        form.selected_field == RemoteField::User ==> form.with_typed(text).user == text,
        form.selected_field == RemoteField::Credential && form.auth_type
            == RemoteAuthType::Password ==> form.with_typed(text).password == text,
        form.selected_field == RemoteField::Credential && form.auth_type == RemoteAuthType::KeyFile
            ==> form.with_typed(text).key_path == text && form.with_typed(text).password
            == form.password,
        form.selected_field == RemoteField::Passphrase ==> form.with_typed(text).passphrase == text,
{
}

/// The other way to sign in is chosen, and nothing else changes.
pub proof fn law_two_ways_to_sign_in(before: RemoteConnectState, after: RemoteConnectState)
    requires
        auth_type_toggled(before, after),
    ensures
        after.auth_type != before.auth_type,
        after.password == before.password,
        after.key_path == before.key_path,
        after.selected_field == before.selected_field,
{
}

/// A port is a number up to 65535, with a plus sign or without; anything else is none, and
/// then the usual port is used.
pub proof fn law_ports_are_numbers(text: Seq<char>, form: FormView, canonical: Option<Seq<char>>)
    ensures
        port_of(Seq::empty()) is None,
        port_of("+"@) is None,
        (exists|i: int| 0 < i < text.len() && !('0' <= #[trigger] text[i] <= '9')) ==> port_of(
            text,
        ) is None,
        text.len() > 0 && text[0] != '+' && !('0' <= text[0] <= '9') ==> port_of(text) is None,
        port_of(form.port) is None ==> profile_of(form, canonical).port == 22,
        port_of(form.port) matches Some(port) ==> profile_of(form, canonical).port == port,
{
    reveal_strlit("+");
    if exists|i: int| 0 < i < text.len() && !('0' <= #[trigger] text[i] <= '9') {
        let i = choose|i: int| 0 < i < text.len() && !('0' <= #[trigger] text[i] <= '9');
        let digits = unsigned_part(text);
        if text[0] == '+' {
            assert(digits[i - 1] == text[i]);
        } else {
            assert(digits[i] == text[i]);
        }
    }
    if text.len() > 0 && text[0] != '+' {
        assert(unsigned_part(text)[0] == text[0]);
    }
}

/// A profile signs in as the form says: with the password, or with the key and its
/// passphrase if there is one. Without a name it is named after the user and the host.
pub proof fn law_profile_is_what_the_form_says(form: FormView, canonical: Option<Seq<char>>)
    ensures
        ({
            let profile = profile_of(form, canonical);
            let host = match canonical {
                Some(name) => name,
                None => form.host,
            };
            &&& profile.host == host
            &&& profile.user == form.user
            &&& profile.default_path == form.remote_path
            &&& form.profile_name.len() > 0 ==> profile.name == form.profile_name
            &&& form.profile_name.len() == 0 ==> profile.name == form.user + "@"@ + host
            &&& form.auth_type == RemoteAuthType::Password ==> profile.auth
                == (AuthView::Password { password: form.password })
            &&& form.auth_type == RemoteAuthType::KeyFile && form.passphrase.len() == 0
                ==> profile.auth == (AuthView::KeyFile { path: form.key_path, passphrase: None })
            &&& form.auth_type == RemoteAuthType::KeyFile && form.passphrase.len() > 0
                ==> profile.auth == (AuthView::KeyFile {
                path: form.key_path,
                passphrase: Some(form.passphrase),
            })
        }),
{
}

} // verus!
