//! The credential filter: puts a provider's credential in place of the
//! customer's once a route has been chosen.
use vstd::prelude::*;
use vstd::string::*;
use vstd::utf8::*;

use super::descriptor::views;
use super::metadata::STRATEGY_BEARER_TOKEN;
use crate::header::{
    check_header_value, header_value_refusal, is_header_value, is_value_byte,
};
use crate::secret::{secret_text, Secret};
use crate::text::{
    blank, byte_len, byte_length, decimal, decimal_text, is_blank, is_white_space, joined,
    law_blank_texts_show_nothing, law_trimming_takes_only_white_space, lemma_trimmed_is_stable,
    lemma_trimmed_length, lent_text, optional_text, same_text, shows_something, trimmed,
};

verus! {

/// Most credentials that one filter takes.
pub const MAX_CREDENTIALS: usize = 1024;

/// Longest part of a reference to a Secret, in bytes.
pub const MAX_REFERENCE_LEN: usize = 256;

/// Longest name of a source, in bytes.
pub const MAX_SOURCE_LEN: usize = 4096;

/// Longest credential, in bytes.
pub const MAX_TOKEN_BYTES: usize = 16384;

/// Bytes to read of a file in order to tell whether it is too long.
pub const MAX_TOKEN_READ_BYTES: u64 = 16385;

/// The header by which a request is authorized.
pub const AUTHORIZATION: &'static str = "authorization";

/// Why a credential filter could not be configured.
#[derive(Debug)]
pub enum CredentialError {
    /// There are no credentials, or too many.
    Count,
    /// A credential is to be sent in an unknown way.
    Strategy,
    /// Two credentials go by the same reference.
    Duplicate,
    /// A setting shows nothing or is too long.
    Field {
        /// Name of the setting.
        field: &'static str,
        /// Longest value that it takes, in bytes.
        maximum: usize,
    },
    /// A credential shows nothing or is too long.
    Token,
    /// A credential has no source, or several.
    Sources,
    /// An environment variable could not be read.
    VariableUnavailable {
        /// Name of the variable.
        variable: String,
        /// What went wrong.
        reason: String,
    },
    /// A file could not be opened.
    FileNotOpened {
        /// The file.
        path: String,
        /// What went wrong.
        reason: String,
    },
    /// A file could not be read.
    FileNotRead {
        /// The file.
        path: String,
        /// What went wrong.
        reason: String,
    },
    /// A file is too long.
    FileTooLong {
        /// The file.
        path: String,
    },
    /// A credential holds what cannot be sent in a header.
    Header {
        /// What went wrong.
        reason: String,
    },
}

/// What a [`CredentialError`] says.
pub ghost enum CredentialFault {
    /// There are no credentials, or too many.
    Count,
    /// A credential is to be sent in an unknown way.
    Strategy,
    /// Two credentials go by the same reference.
    Duplicate,
    /// A setting shows nothing or is too long.
    Field(Seq<char>, nat),
    /// A credential shows nothing or is too long.
    Token,
    /// A credential has no source, or several.
    Sources,
    /// An environment variable could not be read.
    VariableUnavailable(Seq<char>, Seq<char>),
    /// A file could not be opened.
    FileNotOpened(Seq<char>, Seq<char>),
    /// A file could not be read.
    FileNotRead(Seq<char>, Seq<char>),
    /// A file is too long.
    FileTooLong(Seq<char>),
    /// A credential holds what cannot be sent in a header.
    Header(Seq<char>),
}

impl View for CredentialError {
    type V = CredentialFault;

    open spec fn view(&self) -> CredentialFault {
        match self {
            CredentialError::Count => CredentialFault::Count,
            CredentialError::Strategy => CredentialFault::Strategy,
            CredentialError::Duplicate => CredentialFault::Duplicate,
            CredentialError::Field { field, maximum } => CredentialFault::Field(
                field@,
                *maximum as nat,
            ),
            CredentialError::Token => CredentialFault::Token,
            CredentialError::Sources => CredentialFault::Sources,
            CredentialError::VariableUnavailable { variable, reason } =>
                CredentialFault::VariableUnavailable(variable@, reason@),
            CredentialError::FileNotOpened { path, reason } => CredentialFault::FileNotOpened(
                path@,
                reason@,
            ),
            CredentialError::FileNotRead { path, reason } => CredentialFault::FileNotRead(
                path@,
                reason@,
            ),
            CredentialError::FileTooLong { path } => CredentialFault::FileTooLong(path@),
            CredentialError::Header { reason } => CredentialFault::Header(reason@),
        }
    }
}

impl CredentialFault {
    /// The text of the error, after the name of the filter.
    pub open spec fn text(self) -> Seq<char> {
        match self {
            CredentialFault::Count => "credentials must contain 1-"@ + decimal_text(
                MAX_CREDENTIALS as nat,
            ) + " entries"@,
            CredentialFault::Strategy => "unsupported credential strategy"@,
            CredentialFault::Duplicate => "duplicate credential reference"@,
            CredentialFault::Field(field, maximum) => field + " must be non-blank and at most "@
                + decimal_text(maximum) + " bytes"@,
            CredentialFault::Token => "resolved credential must contain 1-"@ + decimal_text(
                MAX_TOKEN_BYTES as nat,
            ) + " bytes"@,
            CredentialFault::Sources =>
                "configure exactly one of value, env_var, or file per credential"@,
            CredentialFault::VariableUnavailable(variable, reason) => "environment source "@
                + variable + " is unavailable: "@ + reason,
            CredentialFault::FileNotOpened(path, reason) => "cannot open credential file "@ + path
                + ": "@ + reason,
            CredentialFault::FileNotRead(path, reason) => "cannot read credential file "@ + path
                + ": "@ + reason,
            CredentialFault::FileTooLong(path) => "credential file "@ + path + " exceeds "@
                + decimal_text(MAX_TOKEN_BYTES as nat) + " bytes"@,
            CredentialFault::Header(reason) => "invalid bearer credential: "@ + reason,
        }
    }
}

/// `a`, `b`, `c` and `d` one after the other.
fn joined_all(a: &str, b: &str, c: &str, d: &str) -> (r: String)
    ensures
        r@ == a@ + b@ + c@ + d@,
{
    let mut r = joined(a, b);
    r.append(c);
    r.append(d);
    r
}

impl CredentialError {
    /// The text of the error.
    pub fn message(&self) -> (r: String)
        ensures
            r@ == "grid_credential_inject: "@ + self@.text(),
    {
        let text = match self {
            CredentialError::Count => {
                let mut r = joined(
                    "credentials must contain 1-",
                    decimal(MAX_CREDENTIALS as u64).as_str(),
                );
                r.append(" entries");
                r
            },
            CredentialError::Strategy => "unsupported credential strategy".to_owned(),
            CredentialError::Duplicate => "duplicate credential reference".to_owned(),
            CredentialError::Field { field, maximum } => joined_all(
                field,
                " must be non-blank and at most ",
                decimal(*maximum as u64).as_str(),
                " bytes",
            ),
            CredentialError::Token => {
                let mut r = joined(
                    "resolved credential must contain 1-",
                    decimal(MAX_TOKEN_BYTES as u64).as_str(),
                );
                r.append(" bytes");
                r
            },
            CredentialError::Sources => {
                "configure exactly one of value, env_var, or file per credential".to_owned()
            },
            CredentialError::VariableUnavailable { variable, reason } => joined_all(
                "environment source ",
                variable.as_str(),
                " is unavailable: ",
                reason.as_str(),
            ),
            CredentialError::FileNotOpened { path, reason } => joined_all(
                "cannot open credential file ",
                path.as_str(),
                ": ",
                reason.as_str(),
            ),
            CredentialError::FileNotRead { path, reason } => joined_all(
                "cannot read credential file ",
                path.as_str(),
                ": ",
                reason.as_str(),
            ),
            CredentialError::FileTooLong { path } => {
                let mut r = joined_all(
                    "credential file ",
                    path.as_str(),
                    " exceeds ",
                    decimal(MAX_TOKEN_BYTES as u64).as_str(),
                );
                r.append(" bytes");
                r
            },
            CredentialError::Header { reason } => joined(
                "invalid bearer credential: ",
                reason.as_str(),
            ),
        };
        joined("grid_credential_inject: ", text.as_str())
    }
}

/// One credential as it is configured.
#[derive(Debug)]
pub struct CredentialEntryConfig {
    /// Name of the Secret.
    pub name: String,
    /// Namespace of the Secret.
    pub namespace: String,
    /// Key in the Secret.
    pub key: String,
    /// How the credential is sent.
    pub strategy: String,
    /// The credential itself, for development.
    pub value: Option<String>,
    /// Environment variable that holds the credential, for development.
    pub env_var: Option<String>,
    /// File that holds the credential.
    pub file: Option<String>,
}

/// How a credential is sent when nothing is configured.
pub fn default_strategy() -> (r: String)
    ensures
        r@ == STRATEGY_BEARER_TOKEN@,
{
    STRATEGY_BEARER_TOKEN.to_owned()
}

/// What a [`CredentialEntryConfig`] says.
pub ghost struct EntryView {
    /// Name of the Secret.
    pub name: Seq<char>,
    /// Namespace of the Secret.
    pub namespace: Seq<char>,
    /// Key in the Secret.
    pub key: Seq<char>,
    /// How the credential is sent.
    pub strategy: Seq<char>,
    /// The credential itself.
    pub value: Option<Seq<char>>,
    /// Environment variable that holds the credential.
    pub env_var: Option<Seq<char>>,
    /// File that holds the credential.
    pub file: Option<Seq<char>>,
}

impl View for CredentialEntryConfig {
    type V = EntryView;

    open spec fn view(&self) -> EntryView {
        EntryView {
            name: self.name@,
            namespace: self.namespace@,
            key: self.key@,
            strategy: self.strategy@,
            value: optional_text(self.value),
            env_var: optional_text(self.env_var),
            file: optional_text(self.file),
        }
    }
}

/// What came of reading the source of a credential.
pub enum SourceRead {
    /// What the source holds, of a file at most one byte more than is allowed.
    Text(Secret),
    /// The source could not be found or opened.
    NotOpened(String),
    /// The source could not be read.
    NotRead(String),
}

/// What a [`SourceRead`] says.
pub ghost enum ReadView {
    /// What the source holds.
    Text(Seq<char>),
    /// The source could not be found or opened.
    NotOpened(Seq<char>),
    /// The source could not be read.
    NotRead(Seq<char>),
}

impl View for SourceRead {
    type V = ReadView;

    open spec fn view(&self) -> ReadView {
        match self {
            SourceRead::Text(secret) => ReadView::Text(secret_text(*secret)),
            SourceRead::NotOpened(reason) => ReadView::NotOpened(reason@),
            SourceRead::NotRead(reason) => ReadView::NotRead(reason@),
        }
    }
}

/// Whether `value` shows something and takes at most `maximum` bytes.
pub open spec fn is_bounded(value: Seq<char>, maximum: nat) -> bool {
    !is_blank(value) && byte_length(value) <= maximum
}

/// Whether `token` can be a credential.
pub open spec fn is_token(token: Seq<char>) -> bool {
    is_bounded(token, MAX_TOKEN_BYTES as nat)
}

/// Reject a value that shows nothing or is too long.
pub fn validate_bounded(field: &'static str, value: &str, maximum: usize) -> (r: Result<
    (),
    CredentialError,
>)
    ensures
        match r {
            Ok(()) => is_bounded(value@, maximum as nat),
            Err(e) => !is_bounded(value@, maximum as nat) && e@ == CredentialFault::Field(
                field@,
                maximum as nat,
            ),
        },
{
    if blank(value) || byte_len(value) > maximum {
        Err(CredentialError::Field { field, maximum })
    } else {
        Ok(())
    }
}

/// Reject a credential that shows nothing or is too long.
pub fn validate_token(token: &str) -> (r: Result<(), CredentialError>)
    ensures
        match r {
            Ok(()) => is_token(token@),
            Err(e) => !is_token(token@) && e@ == CredentialFault::Token,
        },
{
    if blank(token) || byte_len(token) > MAX_TOKEN_BYTES {
        Err(CredentialError::Token)
    } else {
        Ok(())
    }
}

/// What is wrong with the reference of `entry`, if anything.
pub open spec fn ref_fault(entry: EntryView) -> Option<CredentialFault> {
    let maximum = MAX_REFERENCE_LEN as nat;
    if !is_bounded(entry.name, maximum) {
        Some(CredentialFault::Field("name"@, maximum))
    } else if !is_bounded(entry.namespace, maximum) {
        Some(CredentialFault::Field("namespace"@, maximum))
    } else if !is_bounded(entry.key, maximum) {
        Some(CredentialFault::Field("key"@, maximum))
    } else {
        None
    }
}

/// Reject a reference with a part that shows nothing or is too long.
pub fn validate_ref(entry: &CredentialEntryConfig) -> (r: Result<(), CredentialError>)
    ensures
        match ref_fault(entry@) {
            None => r is Ok,
            Some(fault) => r matches Err(e) && e@ == fault,
        },
{
    match validate_bounded("name", entry.name.as_str(), MAX_REFERENCE_LEN) {
        Err(e) => {
            return Err(e);
        },
        Ok(()) => {},
    }
    match validate_bounded("namespace", entry.namespace.as_str(), MAX_REFERENCE_LEN) {
        Err(e) => {
            return Err(e);
        },
        Ok(()) => {},
    }
    validate_bounded("key", entry.key.as_str(), MAX_REFERENCE_LEN)
}

/// The credential in a file.
pub open spec fn file_token(path: Seq<char>, read: ReadView) -> Result<
    Seq<char>,
    CredentialFault,
> {
    match read {
        ReadView::NotOpened(reason) => Err(CredentialFault::FileNotOpened(path, reason)),
        ReadView::NotRead(reason) => Err(CredentialFault::FileNotRead(path, reason)),
        ReadView::Text(text) => if byte_length(text) > MAX_TOKEN_BYTES {
            Err(CredentialFault::FileTooLong(path))
        } else {
            Ok(trimmed(text))
        },
    }
}

/// The credential in the file `path`, without white space round it: `read` is
/// what was read of the file.
pub fn read_token_file(path: &str, read: SourceRead) -> (r: Result<Secret, CredentialError>)
    ensures
        match file_token(path@, read@) {
            Ok(token) => r matches Ok(secret) && secret_text(secret) == token,
            Err(fault) => r matches Err(e) && e@ == fault,
        },
        forall|head: Seq<char>, token: Seq<char>, tail: Seq<char>|
            {
                &&& read@ == ReadView::Text(#[trigger] (head + token + tail))
                &&& forall|i: int| 0 <= i < head.len() ==> is_white_space(#[trigger] head[i])
                &&& forall|i: int| 0 <= i < tail.len() ==> is_white_space(#[trigger] tail[i])
                &&& token.len() > 0 ==> !is_white_space(token[0]) && !is_white_space(token.last())
                &&& encode_utf8(head + token + tail).len() <= 16384
            } ==> (r matches Ok(secret) && secret_text(secret) == token),
{
    proof {
        assert forall|head: Seq<char>, token: Seq<char>, tail: Seq<char>|
            {
                &&& read@ == ReadView::Text(#[trigger] (head + token + tail))
                &&& forall|i: int| 0 <= i < head.len() ==> is_white_space(#[trigger] head[i])
                &&& forall|i: int| 0 <= i < tail.len() ==> is_white_space(#[trigger] tail[i])
                &&& token.len() > 0 ==> !is_white_space(token[0]) && !is_white_space(token.last())
                &&& encode_utf8(head + token + tail).len() <= 16384
            } implies file_token(path@, read@) == Ok::<Seq<char>, CredentialFault>(token) by {
            law_file_credentials_are_taken_whole(path@, head, token, tail);
        }
    }
    match read {
        SourceRead::NotOpened(reason) => Err(
            CredentialError::FileNotOpened { path: path.to_owned(), reason },
        ),
        SourceRead::NotRead(reason) => Err(
            CredentialError::FileNotRead { path: path.to_owned(), reason },
        ),
        SourceRead::Text(text) => {
            if byte_len(text.text()) > MAX_TOKEN_BYTES {
                Err(CredentialError::FileTooLong { path: path.to_owned() })
            } else {
                Ok(Secret::new(text.text().trim().to_owned()))
            }
        },
    }
}

/// A credential from a file has no white space round it, and is good to use
/// unless nothing is left of it.
pub proof fn law_file_credentials_are_trimmed(path: Seq<char>, text: Seq<char>)
    requires
        byte_length(text) <= MAX_TOKEN_BYTES,
    ensures
        file_token(path, ReadView::Text(text)) matches Ok(token) && trimmed(token) == token && (
        is_token(token) <==> token.len() > 0),
{
    lemma_trimmed_is_stable(text);
    lemma_trimmed_length(text);
}

/// What has to be read to resolve a credential.
#[derive(Debug)]
pub enum Source<'a> {
    /// Nothing.
    Inline,
    /// An environment variable.
    Variable(&'a str),
    /// A file.
    File(&'a str),
}

/// What a [`Source`] says.
pub ghost enum SourceView {
    /// Nothing.
    Inline,
    /// An environment variable.
    Variable(Seq<char>),
    /// A file.
    File(Seq<char>),
}

impl<'a> View for Source<'a> {
    type V = SourceView;

    open spec fn view(&self) -> SourceView {
        match self {
            Source::Inline => SourceView::Inline,
            Source::Variable(name) => SourceView::Variable(name@),
            Source::File(path) => SourceView::File(path@),
        }
    }
}

/// Where the credential of `entry` comes from.
pub open spec fn source_of(entry: EntryView) -> Result<SourceView, CredentialFault> {
    let maximum = MAX_SOURCE_LEN as nat;
    match (entry.value, entry.env_var, entry.file) {
        (Some(value), None, None) => if is_token(value) {
            Ok(SourceView::Inline)
        } else {
            Err(CredentialFault::Token)
        },
        (None, Some(variable), None) => if is_bounded(variable, maximum) {
            Ok(SourceView::Variable(variable))
        } else {
            Err(CredentialFault::Field("env_var"@, maximum))
        },
        (None, None, Some(path)) => if is_bounded(path, maximum) {
            Ok(SourceView::File(path))
        } else {
            Err(CredentialFault::Field("file"@, maximum))
        },
        _ => Err(CredentialFault::Sources),
    }
}

/// Where the credential of `entry` comes from: exactly one of the three places.
pub fn credential_source(entry: &CredentialEntryConfig) -> (r: Result<
    Source<'_>,
    CredentialError,
>)
    ensures
        match source_of(entry@) {
            Ok(source) => r matches Ok(held) && held@ == source,
            Err(fault) => r matches Err(e) && e@ == fault,
        },
{
    match (&entry.value, &entry.env_var, &entry.file) {
        (Some(value), None, None) => match validate_token(value.as_str()) {
            Err(e) => Err(e),
            Ok(()) => Ok(Source::Inline),
        },
        (None, Some(variable), None) => match validate_bounded(
            "env_var",
            variable.as_str(),
            MAX_SOURCE_LEN,
        ) {
            Err(e) => Err(e),
            Ok(()) => Ok(Source::Variable(variable.as_str())),
        },
        (None, None, Some(path)) => match validate_bounded("file", path.as_str(), MAX_SOURCE_LEN) {
            Err(e) => Err(e),
            Ok(()) => Ok(Source::File(path.as_str())),
        },
        _ => Err(CredentialError::Sources),
    }
}

/// The credential of `entry`, before it is looked at.
pub open spec fn raw_token(entry: EntryView, read: ReadView) -> Result<
    Seq<char>,
    CredentialFault,
> {
    match source_of(entry) {
        Err(fault) => Err(fault),
        Ok(SourceView::Inline) => Ok(entry.value->0),
        Ok(SourceView::Variable(variable)) => match read {
            ReadView::Text(text) => Ok(text),
            ReadView::NotOpened(reason) => Err(
                CredentialFault::VariableUnavailable(variable, reason),
            ),
            ReadView::NotRead(reason) => Err(
                CredentialFault::VariableUnavailable(variable, reason),
            ),
        },
        Ok(SourceView::File(path)) => file_token(path, read),
    }
}

/// The header that sends `token`.
pub open spec fn bearer(token: Seq<char>) -> Seq<char> {
    "Bearer "@ + token
}

/// The header that sends the credential of `entry`.
pub open spec fn resolved(entry: EntryView, read: ReadView) -> Result<
    Seq<char>,
    CredentialFault,
> {
    match raw_token(entry, read) {
        Err(fault) => Err(fault),
        Ok(token) => if !is_token(token) {
            Err(CredentialFault::Token)
        } else if !is_header_value(bearer(token)) {
            Err(CredentialFault::Header(header_value_refusal()))
        } else {
            Ok(bearer(token))
        },
    }
}

/// A credential that is ready to be sent.
pub struct ResolvedCredential {
    /// Value of the header that sends it.
    pub header_value: Secret,
}

/// The header that sends the credential of `entry`: `read` is what was read of
/// its source, if that has to be read.
pub fn resolve_credential(entry: &CredentialEntryConfig, read: SourceRead) -> (r: Result<
    ResolvedCredential,
    CredentialError,
>)
    ensures
        match resolved(entry@, read@) {
            Ok(header) => r matches Ok(held) && secret_text(held.header_value) == header,
            Err(fault) => r matches Err(e) && e@ == fault,
        },
{
    let token = match credential_source(entry) {
        Err(e) => {
            return Err(e);
        },
        Ok(Source::Inline) => match &entry.value {
            Some(value) => Secret::new(value.clone()),
            None => {
                return Err(CredentialError::Sources);
            },
        },
        Ok(Source::Variable(variable)) => match read {
            SourceRead::Text(text) => text,
            SourceRead::NotOpened(reason) => {
                return Err(
                    CredentialError::VariableUnavailable { variable: variable.to_owned(), reason },
                );
            },
            SourceRead::NotRead(reason) => {
                return Err(
                    CredentialError::VariableUnavailable { variable: variable.to_owned(), reason },
                );
            },
        },
        Ok(Source::File(path)) => match read_token_file(path, read) {
            Err(e) => {
                return Err(e);
            },
            Ok(token) => token,
        },
    };
    match validate_token(token.text()) {
        Err(e) => {
            return Err(e);
        },
        Ok(()) => {},
    }
    let header_value = Secret::new(joined("Bearer ", token.text()));
    match check_header_value(header_value.text()) {
        Ok(()) => Ok(ResolvedCredential { header_value }),
        Err(reason) => Err(CredentialError::Header { reason }),
    }
}

/// Where a credential is kept: a key of a Secret.
#[derive(Debug)]
pub struct CredentialRef {
    /// Name of the Secret.
    pub name: String,
    /// Namespace of the Secret.
    pub namespace: String,
    /// Key in the Secret.
    pub key: String,
}

/// What a [`CredentialRef`] says.
pub ghost struct RefView {
    /// Name of the Secret.
    pub name: Seq<char>,
    /// Namespace of the Secret.
    pub namespace: Seq<char>,
    /// Key in the Secret.
    pub key: Seq<char>,
}

impl View for CredentialRef {
    type V = RefView;

    open spec fn view(&self) -> RefView {
        RefView { name: self.name@, namespace: self.namespace@, key: self.key@ }
    }
}

/// The reference of an entry.
pub open spec fn ref_of(entry: EntryView) -> RefView {
    RefView { name: entry.name, namespace: entry.namespace, key: entry.key }
}

/// One credential to configure, and what was read of its source.
pub struct CredentialInput {
    /// How it is configured.
    pub entry: CredentialEntryConfig,
    /// What was read of its source, if that has to be read.
    pub read: SourceRead,
}

impl View for CredentialInput {
    type V = (EntryView, ReadView);

    open spec fn view(&self) -> (EntryView, ReadView) {
        (self.entry@, self.read@)
    }
}

/// The headers of `before`, and that of one more credential.
pub open spec fn with_input(
    before: Map<RefView, Seq<char>>,
    input: (EntryView, ReadView),
) -> Result<Map<RefView, Seq<char>>, CredentialFault> {
    let (entry, read) = input;
    if entry.strategy != STRATEGY_BEARER_TOKEN@ {
        Err(CredentialFault::Strategy)
    } else {
        match ref_fault(entry) {
            Some(fault) => Err(fault),
            None => match resolved(entry, read) {
                Err(fault) => Err(fault),
                Ok(header) => if before.dom().contains(ref_of(entry)) {
                    Err(CredentialFault::Duplicate)
                } else {
                    Ok(before.insert(ref_of(entry), header))
                },
            },
        }
    }
}

/// The header of each credential, or what is wrong with the first of them with
/// which anything is.
pub open spec fn headers_of(inputs: Seq<(EntryView, ReadView)>) -> Result<
    Map<RefView, Seq<char>>,
    CredentialFault,
>
    decreases inputs.len(),
{
    if inputs.len() == 0 {
        Ok(Map::empty())
    } else {
        match headers_of(inputs.drop_last()) {
            Err(fault) => Err(fault),
            Ok(before) => with_input(before, inputs.last()),
        }
    }
}

/// Reject a number of credentials that is none or too many.
pub fn validate_count(count: usize) -> (r: Result<(), CredentialError>)
    ensures
        match r {
            Ok(()) => 0 < count <= MAX_CREDENTIALS,
            Err(e) => !(0 < count <= MAX_CREDENTIALS) && e@ == CredentialFault::Count,
        },
{
    if count == 0 || count > MAX_CREDENTIALS {
        Err(CredentialError::Count)
    } else {
        Ok(())
    }
}

/// Where the credential of `entry` has to be read from, or what is wrong with the
/// entry before anything is read.
pub open spec fn source_to_read(entry: EntryView) -> Result<SourceView, CredentialFault> {
    if entry.strategy != STRATEGY_BEARER_TOKEN@ {
        Err(CredentialFault::Strategy)
    } else {
        match ref_fault(entry) {
            Some(fault) => Err(fault),
            None => source_of(entry),
        }
    }
}

/// Check an entry before its source is read, and tell where that is.
pub fn entry_source(entry: &CredentialEntryConfig) -> (r: Result<Source<'_>, CredentialError>)
    ensures
        match source_to_read(entry@) {
            Ok(source) => r matches Ok(held) && held@ == source,
            Err(fault) => r matches Err(e) && e@ == fault,
        },
{
    if !same_text(entry.strategy.as_str(), STRATEGY_BEARER_TOKEN) {
        return Err(CredentialError::Strategy);
    }
    match validate_ref(entry) {
        Err(e) => Err(e),
        Ok(()) => credential_source(entry),
    }
}

/// What is wrong with an entry before its source is read is what is wrong with it
/// whatever would be read.
pub proof fn law_faults_need_no_reading(
    before: Map<RefView, Seq<char>>,
    entry: EntryView,
    read: ReadView,
)
    ensures
        source_to_read(entry) matches Err(fault) ==> with_input(before, (entry, read)) == Err::<
            Map<RefView, Seq<char>>,
            CredentialFault,
        >(fault),
{
}

/// The headers of a filter that is configured with `inputs`.
pub open spec fn configured(inputs: Seq<(EntryView, ReadView)>) -> Result<
    Map<RefView, Seq<char>>,
    CredentialFault,
> {
    if inputs.len() == 0 || inputs.len() > MAX_CREDENTIALS {
        Err(CredentialFault::Count)
    } else {
        headers_of(inputs)
    }
}

/// A credential and where it is kept.
pub struct HeldCredential {
    /// Where it is kept.
    pub credential_ref: CredentialRef,
    /// The credential, ready to be sent.
    pub credential: ResolvedCredential,
}

/// The header of each credential.
pub open spec fn held_headers(held: Seq<HeldCredential>) -> Map<RefView, Seq<char>>
    decreases held.len(),
{
    if held.len() == 0 {
        Map::empty()
    } else {
        held_headers(held.drop_last()).insert(
            held.last().credential_ref@,
            secret_text(held.last().credential.header_value),
        )
    }
}

/// Whether no two credentials go by the same reference.
pub open spec fn are_distinct(held: Seq<HeldCredential>) -> bool {
    forall|i: int, j: int|
        0 <= i < j < held.len() ==> (#[trigger] held[i]).credential_ref@ != (
        #[trigger] held[j]).credential_ref@
}

/// A reference leads to a credential exactly when some credential goes by it.
proof fn lemma_held_headers(held: Seq<HeldCredential>, wanted: RefView)
    requires
        are_distinct(held),
    ensures
        held_headers(held).dom().contains(wanted) <==> exists|i: int|
            0 <= i < held.len() && (#[trigger] held[i]).credential_ref@ == wanted,
        forall|i: int|
            0 <= i < held.len() && (#[trigger] held[i]).credential_ref@ == wanted
                ==> held_headers(held)[wanted] == secret_text(held[i].credential.header_value),
    decreases held.len(),
{
    if held.len() > 0 {
        let front = held.drop_last();
        assert forall|i: int, j: int| 0 <= i < j < front.len() implies (
        #[trigger] front[i]).credential_ref@ != (#[trigger] front[j]).credential_ref@ by {
            assert(held[i].credential_ref@ != held[j].credential_ref@);
        }
        lemma_held_headers(front, wanted);
        assert forall|i: int| 0 <= i < front.len() implies front[i] == held[i] by {}
        if held.last().credential_ref@ == wanted {
            assert(held[held.len() - 1].credential_ref@ == wanted);
        } else {
            if exists|i: int|
                0 <= i < held.len() && (#[trigger] held[i]).credential_ref@ == wanted {
                let i = choose|i: int|
                    0 <= i < held.len() && (#[trigger] held[i]).credential_ref@ == wanted;
                assert(front[i].credential_ref@ == wanted);
            }
        }
        assert forall|i: int|
            0 <= i < held.len() && (#[trigger] held[i]).credential_ref@
                == wanted implies held_headers(held)[wanted] == secret_text(
            held[i].credential.header_value,
        ) by {
            if i < held.len() - 1 {
                assert(front[i].credential_ref@ == wanted);
            }
        }
    }
}

/// What the filter reads of a request: the credential that a route chose.
#[derive(Debug, Clone, Copy)]
pub struct CredentialRequest<'a> {
    /// Name of the Secret.
    pub name: Option<&'a str>,
    /// Namespace of the Secret.
    pub namespace: Option<&'a str>,
    /// Key in the Secret.
    pub key: Option<&'a str>,
    /// How the credential is sent.
    pub strategy: Option<&'a str>,
}

/// What a [`CredentialRequest`] says.
pub ghost struct CredentialRequestView {
    /// Name of the Secret.
    pub name: Option<Seq<char>>,
    /// Namespace of the Secret.
    pub namespace: Option<Seq<char>>,
    /// Key in the Secret.
    pub key: Option<Seq<char>>,
    /// How the credential is sent.
    pub strategy: Option<Seq<char>>,
}

impl<'a> View for CredentialRequest<'a> {
    type V = CredentialRequestView;

    open spec fn view(&self) -> CredentialRequestView {
        CredentialRequestView {
            name: lent_text(self.name),
            namespace: lent_text(self.namespace),
            key: lent_text(self.key),
            strategy: lent_text(self.strategy),
        }
    }
}

/// What the filter does to a request.
#[derive(Clone, Copy)]
pub enum CredentialOutcome<'a> {
    /// The request goes on as it is.
    Continue,
    /// The request is turned down with the given status.
    Reject(u16),
    /// The request goes on with another authorization.
    Authorize {
        /// Header to take away.
        remove: &'static str,
        /// Header to set then.
        set: &'static str,
        /// Its value.
        value: &'a str,
    },
}

/// What a [`CredentialOutcome`] says.
pub ghost enum CredentialOutcomeView {
    /// The request goes on as it is.
    Continue,
    /// The request is turned down.
    Reject(u16),
    /// The request goes on with another authorization.
    Authorize {
        /// Header to take away.
        remove: Seq<char>,
        /// Header to set then.
        set: Seq<char>,
        /// Its value.
        value: Seq<char>,
    },
}

impl<'a> View for CredentialOutcome<'a> {
    type V = CredentialOutcomeView;

    open spec fn view(&self) -> CredentialOutcomeView {
        match self {
            CredentialOutcome::Continue => CredentialOutcomeView::Continue,
            CredentialOutcome::Reject(status) => CredentialOutcomeView::Reject(*status),
            CredentialOutcome::Authorize { remove, set, value } => CredentialOutcomeView::Authorize {
                remove: remove@,
                set: set@,
                value: value@,
            },
        }
    }
}

/// The text, or none at all.
pub open spec fn text_or_empty(text: Option<Seq<char>>) -> Seq<char> {
    match text {
        Some(held) => held,
        None => ""@,
    }
}

/// The customer's authorization gives way to `value`.
pub open spec fn authorized_by(value: Seq<char>) -> CredentialOutcomeView {
    CredentialOutcomeView::Authorize { remove: AUTHORIZATION@, set: AUTHORIZATION@, value }
}

/// What becomes of a request.
pub open spec fn credential_outcome(
    headers: Map<RefView, Seq<char>>,
    request: CredentialRequestView,
) -> CredentialOutcomeView {
    match request.name {
        None => CredentialOutcomeView::Continue,
        Some(name) => {
            let wanted = RefView {
                name,
                namespace: text_or_empty(request.namespace),
                key: text_or_empty(request.key),
            };
            if text_or_empty(request.strategy) == STRATEGY_BEARER_TOKEN@ && headers.dom().contains(
                wanted,
            ) {
                authorized_by(headers[wanted])
            } else {
                CredentialOutcomeView::Reject(503)
            }
        },
    }
}

/// The text, or none at all.
fn lent_or_empty<'a>(text: Option<&'a str>) -> (r: &'a str)
    ensures
        r@ == text_or_empty(lent_text(text)),
{
    match text {
        Some(held) => held,
        None => "",
    }
}

/// Sends the credential that a route chose in place of the customer's.
pub struct GridCredentialInjectFilter {
    credentials: Vec<HeldCredential>,
}

impl View for GridCredentialInjectFilter {
    type V = Map<RefView, Seq<char>>;

    closed spec fn view(&self) -> Map<RefView, Seq<char>> {
        held_headers(self.credentials@)
    }
}

impl GridCredentialInjectFilter {
    #[verifier::type_invariant]
    spec fn well_formed(&self) -> bool {
        are_distinct(self.credentials@)
    }

    /// The filter that `inputs` describe. Rejects none and too many, repeated
    /// references, unknown strategies and credentials that cannot be had.
    pub fn from_config(inputs: Vec<CredentialInput>) -> (r: Result<Self, CredentialError>)
        ensures
            match configured(views(inputs@)) {
                Ok(headers) => r matches Ok(filter) && filter@ == headers,
                Err(fault) => r matches Err(e) && e@ == fault,
            },
    {
        match validate_count(inputs.len()) {
            Err(e) => {
                return Err(e);
            },
            Ok(()) => {},
        }
        let ghost list = inputs@;
        let ghost said = views(inputs@);
        let mut filter = Self::without_credentials();
        for input in iter: inputs
            invariant
                iter.seq() == list,
                said == views(list),
                0 < said.len() <= MAX_CREDENTIALS,
                headers_of(said.take(iter.index())) == Ok::<
                    Map<RefView, Seq<char>>,
                    CredentialFault,
                >(filter@),
        {
            let ghost n = iter.index();
            assert(said.take(n + 1).drop_last() =~= said.take(n));
            assert(said.take(n + 1).last() == input@);
            match filter.take_in(input) {
                Err(e) => {
                    proof {
                        lemma_header_fault_of_prefix(said, n + 1);
                    }
                    return Err(e);
                },
                Ok(()) => {},
            }
        }
        assert(said.take(said.len() as int) =~= said);
        Ok(filter)
    }

    /// A filter that knows no credential yet.
    pub fn without_credentials() -> (r: Self)
        ensures
            r@ == Map::<RefView, Seq<char>>::empty(),
    {
        Self { credentials: Vec::new() }
    }

    /// Take in one more credential. Rejects a repeated reference, an unknown
    /// strategy and a credential that cannot be had; the filter then stays as it
    /// is.
    pub fn take_in(&mut self, input: CredentialInput) -> (r: Result<(), CredentialError>)
        ensures
            match with_input(old(self)@, input@) {
                Ok(headers) => r is Ok && final(self)@ == headers,
                Err(fault) => (r matches Err(e) && e@ == fault) && final(self)@ == old(self)@,
            },
    {
        proof {
            use_type_invariant(&*self);
        }
        match held_credential(&self.credentials, input) {
            Err(e) => Err(e),
            Ok(held) => {
                let ghost before = self.credentials@;
                let mut credentials: Vec<HeldCredential> = Vec::new();
                std::mem::swap(&mut credentials, &mut self.credentials);
                credentials.push(held);
                assert(credentials@.drop_last() =~= before);
                self.credentials = credentials;
                Ok(())
            },
        }
    }

    /// Name of the filter.
    pub fn name(&self) -> (r: &'static str)
        ensures
            r@ == "grid_credential_inject"@,
    {
        "grid_credential_inject"
    }

    /// Put the chosen credential in place of the customer's.
    pub fn on_request(&self, request: &CredentialRequest<'_>) -> (r: CredentialOutcome<'_>)
        ensures
            r@ == credential_outcome(self@, request@),
            r matches CredentialOutcome::Authorize { remove, set, .. } ==> remove@
                == "authorization"@ && set@ == "authorization"@,
    {
        proof {
            use_type_invariant(self);
        }
        let name = match request.name {
            None => {
                return CredentialOutcome::Continue;
            },
            Some(name) => name,
        };
        let namespace = lent_or_empty(request.namespace);
        let key = lent_or_empty(request.key);
        if !same_text(lent_or_empty(request.strategy), STRATEGY_BEARER_TOKEN) {
            return CredentialOutcome::Reject(503);
        }
        match position(&self.credentials, name, namespace, key) {
            None => CredentialOutcome::Reject(503),
            Some(i) => CredentialOutcome::Authorize {
                remove: AUTHORIZATION,
                set: AUTHORIZATION,
                value: self.credentials[i].credential.header_value.text(),
            },
        }
    }
}

/// A fault in the front part of a list is the fault of the list.
proof fn lemma_header_fault_of_prefix(inputs: Seq<(EntryView, ReadView)>, n: int)
    requires
        0 <= n <= inputs.len(),
        headers_of(inputs.take(n)) is Err,
    ensures
        headers_of(inputs) == headers_of(inputs.take(n)),
    decreases inputs.len() - n,
{
    if n < inputs.len() {
        assert(inputs.take(n + 1).drop_last() =~= inputs.take(n));
        lemma_header_fault_of_prefix(inputs, n + 1);
    } else {
        assert(inputs.take(n) =~= inputs);
    }
}

/// Where the credential stands that goes by the given reference.
fn position(held: &Vec<HeldCredential>, name: &str, namespace: &str, key: &str) -> (r: Option<
    usize,
>)
    requires
        are_distinct(held@),
    ensures
        ({
            let wanted = RefView { name: name@, namespace: namespace@, key: key@ };
            match r {
                None => !held_headers(held@).dom().contains(wanted),
                Some(i) => {
                    &&& i < held@.len()
                    &&& held_headers(held@).dom().contains(wanted)
                    &&& held_headers(held@)[wanted] == secret_text(
                        held@[i as int].credential.header_value,
                    )
                },
            }
        }),
{
    let ghost wanted = RefView { name: name@, namespace: namespace@, key: key@ };
    proof {
        lemma_held_headers(held@, wanted);
    }
    let mut i: usize = 0;
    while i < held.len()
        invariant
            i <= held@.len(),
            wanted == (RefView { name: name@, namespace: namespace@, key: key@ }),
            held_headers(held@).dom().contains(wanted) <==> exists|j: int|
                0 <= j < held@.len() && (#[trigger] held@[j]).credential_ref@ == wanted,
            forall|j: int|
                0 <= j < held@.len() && (#[trigger] held@[j]).credential_ref@ == wanted
                    ==> held_headers(held@)[wanted] == secret_text(
                    held@[j].credential.header_value,
                ),
            forall|j: int| 0 <= j < i ==> (#[trigger] held@[j]).credential_ref@ != wanted,
        decreases held@.len() - i,
    {
        let found = &held[i].credential_ref;
        if same_text(found.name.as_str(), name) && same_text(found.namespace.as_str(), namespace)
            && same_text(found.key.as_str(), key) {
            assert(held@[i as int].credential_ref@ == wanted);
            return Some(i);
        }
        i += 1;
    }
    None
}

/// The credential that `input` describes, unless one of those before goes by the
/// same reference.
fn held_credential(before: &Vec<HeldCredential>, input: CredentialInput) -> (r: Result<
    HeldCredential,
    CredentialError,
>)
    requires
        are_distinct(before@),
    ensures
        match with_input(held_headers(before@), input@) {
            Err(fault) => r matches Err(e) && e@ == fault,
            Ok(headers) => {
                &&& r is Ok
                &&& are_distinct(before@.push(r->Ok_0))
                &&& headers == held_headers(before@).insert(
                    r->Ok_0.credential_ref@,
                    secret_text(r->Ok_0.credential.header_value),
                )
            },
        },
{
    let entry = input.entry;
    if !same_text(entry.strategy.as_str(), STRATEGY_BEARER_TOKEN) {
        return Err(CredentialError::Strategy);
    }
    match validate_ref(&entry) {
        Err(e) => {
            return Err(e);
        },
        Ok(()) => {},
    }
    let credential = match resolve_credential(&entry, input.read) {
        Err(e) => {
            return Err(e);
        },
        Ok(credential) => credential,
    };
    if position(before, entry.name.as_str(), entry.namespace.as_str(), entry.key.as_str())
        .is_some() {
        return Err(CredentialError::Duplicate);
    }
    let credential_ref = CredentialRef {
        name: entry.name,
        namespace: entry.namespace,
        key: entry.key,
    };
    proof {
        lemma_held_headers(before@, credential_ref@);
    }
    Ok(HeldCredential { credential_ref, credential })
}

/// Every header of a filter can be sent, and holds a credential that shows
/// something and is not too long.
pub proof fn law_every_header_can_be_sent(inputs: Seq<(EntryView, ReadView)>, wanted: RefView)
    requires
        headers_of(inputs) is Ok,
        headers_of(inputs)->Ok_0.dom().contains(wanted),
    ensures
        is_header_value(headers_of(inputs)->Ok_0[wanted]),
        exists|token: Seq<char>|
            is_token(token) && headers_of(inputs)->Ok_0[wanted] == #[trigger] bearer(token),
    decreases inputs.len(),
{
    let (entry, read) = inputs.last();
    let header = resolved(entry, read)->Ok_0;
    if ref_of(entry) == wanted {
        assert(header == bearer(raw_token(entry, read)->Ok_0));
    } else {
        law_every_header_can_be_sent(inputs.drop_last(), wanted);
    }
}

/// A filter keeps one header for each credential that it is configured with:
/// the one that its own source gives.
pub proof fn law_each_credential_keeps_its_own_header(
    inputs: Seq<(EntryView, ReadView)>,
    i: int,
)
    requires
        headers_of(inputs) is Ok,
        0 <= i < inputs.len(),
    ensures
        headers_of(inputs)->Ok_0.dom().contains(ref_of(inputs[i].0)),
        resolved(inputs[i].0, inputs[i].1) == Ok::<Seq<char>, CredentialFault>(
            headers_of(inputs)->Ok_0[ref_of(inputs[i].0)],
        ),
    decreases inputs.len(),
{
    if i < inputs.len() - 1 {
        law_each_credential_keeps_its_own_header(inputs.drop_last(), i);
    }
}

/// A filter keeps exactly as many headers as it was given credentials.
pub proof fn law_no_credential_is_lost(inputs: Seq<(EntryView, ReadView)>)
    requires
        headers_of(inputs) is Ok,
    ensures
        headers_of(inputs)->Ok_0.dom().finite(),
        headers_of(inputs)->Ok_0.dom().len() == inputs.len(),
    decreases inputs.len(),
{
    if inputs.len() > 0 {
        law_no_credential_is_lost(inputs.drop_last());
    }
}

/// A request whose route chose a credential that is configured is sent with that
/// credential and no other.
pub proof fn law_a_chosen_credential_is_sent(inputs: Seq<(EntryView, ReadView)>, i: int)
    requires
        configured(inputs) is Ok,
        0 <= i < inputs.len(),
    ensures
        ({
            let (entry, read) = inputs[i];
            let request = CredentialRequestView {
                name: Some(entry.name),
                namespace: Some(entry.namespace),
                key: Some(entry.key),
                strategy: Some(STRATEGY_BEARER_TOKEN@),
            };
            credential_outcome(configured(inputs)->Ok_0, request) == authorized_by(
                resolved(entry, read)->Ok_0,
            )
        }),
{
    law_each_credential_keeps_its_own_header(inputs, i);
}

/// Every reference of a filter has three parts that show something.
proof fn lemma_references_show(inputs: Seq<(EntryView, ReadView)>, wanted: RefView)
    requires
        headers_of(inputs) is Ok,
        headers_of(inputs)->Ok_0.dom().contains(wanted),
    ensures
        !is_blank(wanted.name),
        !is_blank(wanted.namespace),
        !is_blank(wanted.key),
    decreases inputs.len(),
{
    if ref_of(inputs.last().0) != wanted {
        lemma_references_show(inputs.drop_last(), wanted);
    }
}

/// A request whose route named a credential only in part is turned down.
pub proof fn law_partial_references_are_rejected(
    inputs: Seq<(EntryView, ReadView)>,
    request: CredentialRequestView,
)
    requires
        configured(inputs) is Ok,
        request.name is Some,
        request.namespace is None || request.key is None || request.strategy is None,
    ensures
        credential_outcome(configured(inputs)->Ok_0, request) == CredentialOutcomeView::Reject(503),
{
    reveal_strlit("");
    reveal_strlit("bearer_token");
    assert(is_blank(""@));
    assert(STRATEGY_BEARER_TOKEN@.len() != ""@.len());
    let wanted = RefView {
        name: request.name->0,
        namespace: text_or_empty(request.namespace),
        key: text_or_empty(request.key),
    };
    if headers_of(inputs)->Ok_0.dom().contains(wanted) {
        lemma_references_show(inputs, wanted);
    }
}

/// A request without a chosen credential goes on as it is.
pub proof fn law_nothing_chosen_changes_nothing(
    headers: Map<RefView, Seq<char>>,
    request: CredentialRequestView,
)
    requires
        request.name is None,
    ensures
        credential_outcome(headers, request) == CredentialOutcomeView::Continue,
{
}

/// Whether `text` shows something and takes at most `maximum` bytes.
pub open spec fn fits_in(text: Seq<char>, maximum: nat) -> bool {
    shows_something(text) && encode_utf8(text).len() <= maximum
}

/// What fits is what is bounded.
proof fn lemma_fits_in(text: Seq<char>, maximum: nat)
    ensures
        fits_in(text, maximum) <==> is_bounded(text, maximum),
{
    law_blank_texts_show_nothing(text);
}

/// Whether every byte of `text` may stand in a header: none is a control
/// character, save the tab.
pub open spec fn can_be_sent(text: Seq<char>) -> bool {
    forall|k: int|
        0 <= k < encode_utf8(text).len() ==> {
            let b = #[trigger] encode_utf8(text)[k];
            (b >= 32 && b != 127) || b == 9
        }
}

/// What can be sent is a header value.
proof fn lemma_can_be_sent(text: Seq<char>)
    ensures
        can_be_sent(text) <==> is_header_value(text),
{
    if is_header_value(text) {
        assert forall|k: int| 0 <= k < encode_utf8(text).len() implies {
            let b = #[trigger] encode_utf8(text)[k];
            (b >= 32 && b != 127) || b == 9
        } by {
            assert(is_value_byte(encode_utf8(text)[k]));
        }
    }
}

/// The credential in a file within the limit is all that stands between the white
/// space at its ends, however long that is; only this white space is taken away.
pub proof fn law_file_credentials_are_taken_whole(
    path: Seq<char>,
    head: Seq<char>,
    token: Seq<char>,
    tail: Seq<char>,
)
    requires
        forall|i: int| 0 <= i < head.len() ==> is_white_space(#[trigger] head[i]),
        forall|i: int| 0 <= i < tail.len() ==> is_white_space(#[trigger] tail[i]),
        token.len() > 0 ==> !is_white_space(token[0]) && !is_white_space(token.last()),
        encode_utf8(head + token + tail).len() <= 16384,
    ensures
        file_token(path, ReadView::Text(head + token + tail)) == Ok::<Seq<char>, CredentialFault>(
            token,
        ),
{
    law_trimming_takes_only_white_space(head, token, tail);
}

/// A file that could not be opened, could not be read or is too long gives no
/// credential but the reason.
pub proof fn law_files_without_credentials_are_reported(
    path: Seq<char>,
    text: Seq<char>,
    reason: Seq<char>,
)
    ensures
        file_token(path, ReadView::NotOpened(reason)) == Err::<Seq<char>, CredentialFault>(
            CredentialFault::FileNotOpened(path, reason),
        ),
        file_token(path, ReadView::NotRead(reason)) == Err::<Seq<char>, CredentialFault>(
            CredentialFault::FileNotRead(path, reason),
        ),
        encode_utf8(text).len() > 16384 ==> file_token(path, ReadView::Text(text)) == Err::<
            Seq<char>,
            CredentialFault,
        >(CredentialFault::FileTooLong(path)),
{
}

/// What comes of a credential: it is sent whole behind the word that says how, if
/// it shows something, takes at most 16384 bytes and can be sent at all.
pub open spec fn sent_whole(token: Seq<char>) -> Result<Seq<char>, CredentialFault> {
    if !fits_in(token, 16384) {
        Err(CredentialFault::Token)
    } else if !can_be_sent("Bearer "@ + token) {
        Err(CredentialFault::Header("failed to parse header value"@))
    } else {
        Ok("Bearer "@ + token)
    }
}

/// A credential that is given inline is sent as it is given, whatever is read.
pub proof fn law_inline_credentials_are_sent_whole(entry: EntryView, read: ReadView)
    requires
        entry.value is Some,
        entry.env_var is None,
        entry.file is None,
    ensures
        resolved(entry, read) == sent_whole(entry.value->0),
{
    lemma_fits_in(entry.value->0, 16384);
    lemma_can_be_sent("Bearer "@ + entry.value->0);
}

/// A credential in an environment variable is sent as it is there. A variable that
/// cannot be read is reported, and so is a name that shows nothing or takes more
/// than 4096 bytes.
pub proof fn law_variables_are_sent_whole(entry: EntryView, read: ReadView)
    requires
        entry.value is None,
        entry.env_var is Some,
        entry.file is None,
    ensures
        resolved(entry, read) == (if !fits_in(entry.env_var->0, 4096) {
            Err::<Seq<char>, CredentialFault>(CredentialFault::Field("env_var"@, 4096))
        } else {
            match read {
                ReadView::Text(text) => sent_whole(text),
                ReadView::NotOpened(reason) => Err(
                    CredentialFault::VariableUnavailable(entry.env_var->0, reason),
                ),
                ReadView::NotRead(reason) => Err(
                    CredentialFault::VariableUnavailable(entry.env_var->0, reason),
                ),
            }
        }),
{
    lemma_fits_in(entry.env_var->0, 4096);
    if read is Text {
        lemma_fits_in(read->Text_0, 16384);
        lemma_can_be_sent("Bearer "@ + read->Text_0);
    }
}

/// A credential in a file is sent without the white space at its ends and
/// otherwise whole.
pub proof fn law_files_are_sent_whole(
    entry: EntryView,
    head: Seq<char>,
    token: Seq<char>,
    tail: Seq<char>,
)
    requires
        entry.value is None,
        entry.env_var is None,
        entry.file matches Some(path) && fits_in(path, 4096),
        forall|i: int| 0 <= i < head.len() ==> is_white_space(#[trigger] head[i]),
        forall|i: int| 0 <= i < tail.len() ==> is_white_space(#[trigger] tail[i]),
        token.len() > 0 ==> !is_white_space(token[0]) && !is_white_space(token.last()),
        encode_utf8(head + token + tail).len() <= 16384,
    ensures
        resolved(entry, ReadView::Text(head + token + tail)) == sent_whole(token),
{
    lemma_fits_in(entry.file->0, 4096);
    law_file_credentials_are_taken_whole(entry.file->0, head, token, tail);
    lemma_fits_in(token, 16384);
    lemma_can_be_sent("Bearer "@ + token);
}

/// A file that gives no credential is reported, and so is a name of a file that
/// shows nothing or takes more than 4096 bytes.
pub proof fn law_unreadable_files_are_reported(entry: EntryView, read: ReadView)
    requires
        entry.value is None,
        entry.env_var is None,
        entry.file is Some,
    ensures
        !fits_in(entry.file->0, 4096) ==> resolved(entry, read) == Err::<
            Seq<char>,
            CredentialFault,
        >(CredentialFault::Field("file"@, 4096)),
        fits_in(entry.file->0, 4096) ==> (read matches ReadView::NotOpened(reason) ==> resolved(
            entry,
            read,
        ) == Err::<Seq<char>, CredentialFault>(
            CredentialFault::FileNotOpened(entry.file->0, reason),
        )),
        fits_in(entry.file->0, 4096) ==> (read matches ReadView::NotRead(reason) ==> resolved(
            entry,
            read,
        ) == Err::<Seq<char>, CredentialFault>(
            CredentialFault::FileNotRead(entry.file->0, reason),
        )),
        fits_in(entry.file->0, 4096) ==> (read matches ReadView::Text(text) ==> encode_utf8(
            text,
        ).len() > 16384 ==> resolved(entry, read) == Err::<Seq<char>, CredentialFault>(
            CredentialFault::FileTooLong(entry.file->0),
        )),
{
    lemma_fits_in(entry.file->0, 4096);
}

/// A credential has exactly one source; with none or several it is refused.
pub proof fn law_a_credential_has_one_source(entry: EntryView, read: ReadView)
    requires
        !(entry.value is Some && entry.env_var is None && entry.file is None),
        !(entry.value is None && entry.env_var is Some && entry.file is None),
        !(entry.value is None && entry.env_var is None && entry.file is Some),
    ensures
        resolved(entry, read) == Err::<Seq<char>, CredentialFault>(CredentialFault::Sources),
        source_of(entry) == Err::<SourceView, CredentialFault>(CredentialFault::Sources),
{
}

/// What has to be read for an entry that is otherwise right: nothing for a value,
/// the variable that is named, or the file that is named.
pub proof fn law_only_the_named_source_is_read(entry: EntryView)
    ensures
        source_to_read(entry) matches Ok(source) ==> {
            &&& entry.strategy == "bearer_token"@
            &&& fits_in(entry.name, 256) && fits_in(entry.namespace, 256) && fits_in(entry.key, 256)
            &&& source is Inline <==> entry.value is Some
            &&& source matches SourceView::Variable(variable) ==> entry.env_var == Some(variable)
            &&& source matches SourceView::File(path) ==> entry.file == Some(path)
        },
        entry.strategy == "bearer_token"@ && fits_in(entry.name, 256) && fits_in(
            entry.namespace,
            256,
        ) && fits_in(entry.key, 256) ==> source_to_read(entry) == source_of(entry),
        entry.value matches Some(value) ==> entry.env_var is None && entry.file is None
            ==> source_of(entry) == (if fits_in(value, 16384) {
            Ok::<SourceView, CredentialFault>(SourceView::Inline)
        } else {
            Err(CredentialFault::Token)
        }),
        entry.env_var matches Some(variable) ==> entry.value is None && entry.file is None
            ==> source_of(entry) == (if fits_in(variable, 4096) {
            Ok::<SourceView, CredentialFault>(SourceView::Variable(variable))
        } else {
            Err(CredentialFault::Field("env_var"@, 4096))
        }),
        entry.file matches Some(path) ==> entry.value is None && entry.env_var is None
            ==> source_of(entry) == (if fits_in(path, 4096) {
            Ok::<SourceView, CredentialFault>(SourceView::File(path))
        } else {
            Err(CredentialFault::Field("file"@, 4096))
        }),
{
    lemma_fits_in(entry.name, 256);
    lemma_fits_in(entry.namespace, 256);
    lemma_fits_in(entry.key, 256);
    if entry.value is Some {
        lemma_fits_in(entry.value->0, 16384);
    }
    if entry.env_var is Some {
        lemma_fits_in(entry.env_var->0, 4096);
    }
    if entry.file is Some {
        lemma_fits_in(entry.file->0, 4096);
    }
}

/// One more credential is taken in under its reference exactly when it is to be
/// sent as a bearer token, each part of its reference shows something and takes at
/// most 256 bytes, the credential can be had, and the reference is new. Otherwise
/// the first of these that fails is reported.
pub proof fn law_credentials_are_taken_in_under_their_reference(
    before: Map<RefView, Seq<char>>,
    entry: EntryView,
    read: ReadView,
)
    ensures
        ({
            let reference = RefView {
                name: entry.name,
                namespace: entry.namespace,
                key: entry.key,
            };
            with_input(before, (entry, read)) == (if entry.strategy != "bearer_token"@ {
                Err::<Map<RefView, Seq<char>>, CredentialFault>(CredentialFault::Strategy)
            } else if !fits_in(entry.name, 256) {
                Err(CredentialFault::Field("name"@, 256))
            } else if !fits_in(entry.namespace, 256) {
                Err(CredentialFault::Field("namespace"@, 256))
            } else if !fits_in(entry.key, 256) {
                Err(CredentialFault::Field("key"@, 256))
            } else {
                match resolved(entry, read) {
                    Err(fault) => Err(fault),
                    Ok(header) => if before.dom().contains(reference) {
                        Err(CredentialFault::Duplicate)
                    } else {
                        Ok(before.insert(reference, header))
                    },
                }
            })
        }),
{
    lemma_fits_in(entry.name, 256);
    lemma_fits_in(entry.namespace, 256);
    lemma_fits_in(entry.key, 256);
}

/// A filter takes 1 to 1024 credentials, one after the other, and stops at the
/// first that is refused.
pub proof fn law_credentials_are_taken_in_one_by_one(
    inputs: Seq<(EntryView, ReadView)>,
    next: (EntryView, ReadView),
)
    ensures
        headers_of(Seq::empty()) == Ok::<Map<RefView, Seq<char>>, CredentialFault>(Map::empty()),
        headers_of(inputs.push(next)) == (match headers_of(inputs) {
            Err(fault) => Err::<Map<RefView, Seq<char>>, CredentialFault>(fault),
            Ok(before) => with_input(before, next),
        }),
        configured(inputs) == (if 1 <= inputs.len() <= 1024 {
            headers_of(inputs)
        } else {
            Err::<Map<RefView, Seq<char>>, CredentialFault>(CredentialFault::Count)
        }),
{
    assert(inputs.push(next).drop_last() =~= inputs);
}

/// What becomes of a request. Without a chosen credential it goes on as it is.
/// With one that is to be sent as a bearer token and is configured under exactly
/// this reference, its authorization is taken away and set to that credential.
/// With any other it is turned down, so that the customer's own authorization
/// never goes on in its place.
pub proof fn law_requests_carry_the_chosen_credential(
    headers: Map<RefView, Seq<char>>,
    request: CredentialRequestView,
)
    ensures
        match request.name {
            None => credential_outcome(headers, request) == CredentialOutcomeView::Continue,
            Some(name) => {
                let reference = RefView {
                    name,
                    namespace: match request.namespace {
                        Some(namespace) => namespace,
                        None => ""@,
                    },
                    key: match request.key {
                        Some(key) => key,
                        None => ""@,
                    },
                };
                credential_outcome(headers, request) == (if request.strategy == Some(
                    "bearer_token"@,
                ) && headers.dom().contains(reference) {
                    CredentialOutcomeView::Authorize {
                        remove: "authorization"@,
                        set: "authorization"@,
                        value: headers[reference],
                    }
                } else {
                    CredentialOutcomeView::Reject(503)
                })
            },
        },
{
    reveal_strlit("");
    reveal_strlit("bearer_token");
    assert("bearer_token"@.len() != ""@.len());
}

/// The text of a fault repeats what it is about, whole.
pub proof fn law_messages_name_what_is_wrong(a: Seq<char>, b: Seq<char>, maximum: nat)
    ensures
        CredentialFault::Field(a, maximum).text() == a + " must be non-blank and at most "@
            + decimal_text(maximum) + " bytes"@,
        CredentialFault::VariableUnavailable(a, b).text() == "environment source "@ + a
            + " is unavailable: "@ + b,
        CredentialFault::FileNotOpened(a, b).text() == "cannot open credential file "@ + a + ": "@
            + b,
        CredentialFault::FileNotRead(a, b).text() == "cannot read credential file "@ + a + ": "@
            + b,
        CredentialFault::FileTooLong(a).text() == "credential file "@ + a + " exceeds "@
            + decimal_text(16384) + " bytes"@,
        CredentialFault::Header(a).text() == "invalid bearer credential: "@ + a,
        CredentialFault::Count.text() == "credentials must contain 1-"@ + decimal_text(1024)
            + " entries"@,
        CredentialFault::Token.text() == "resolved credential must contain 1-"@ + decimal_text(
            16384,
        ) + " bytes"@,
        CredentialFault::Strategy.text() == "unsupported credential strategy"@,
        CredentialFault::Duplicate.text() == "duplicate credential reference"@,
        CredentialFault::Sources.text()
            == "configure exactly one of value, env_var, or file per credential"@,
{
}

/// Every error is seen as the fault of its own name, with what it holds.
pub proof fn law_errors_are_seen_as_they_are(error: CredentialError)
    ensures
        error is Count <==> error@ is Count,
        error is Strategy <==> error@ is Strategy,
        error is Duplicate <==> error@ is Duplicate,
        error is Token <==> error@ is Token,
        error is Sources <==> error@ is Sources,
        error matches CredentialError::Field { field, maximum } ==> error@
            == CredentialFault::Field(field@, maximum as nat),
        error matches CredentialError::VariableUnavailable { variable, reason } ==> error@
            == CredentialFault::VariableUnavailable(variable@, reason@),
        error matches CredentialError::FileNotOpened { path, reason } ==> error@
            == CredentialFault::FileNotOpened(path@, reason@),
        error matches CredentialError::FileNotRead { path, reason } ==> error@
            == CredentialFault::FileNotRead(path@, reason@),
        error matches CredentialError::FileTooLong { path } ==> error@
            == CredentialFault::FileTooLong(path@),
        error matches CredentialError::Header { reason } ==> error@ == CredentialFault::Header(
            reason@,
        ),
{
}

/// What is configured, where it comes from and what was read are seen as they are.
pub proof fn law_credentials_are_seen_as_they_are(
    entry: CredentialEntryConfig,
    secret: Secret,
    reason: String,
    name: &str,
    input: CredentialInput,
)
    ensures
        entry@.name == entry.name@,
        entry@.namespace == entry.namespace@,
        entry@.key == entry.key@,
        entry@.strategy == entry.strategy@,
        entry@.value == (match entry.value {
            Some(text) => Some(text@),
            None => None,
        }),
        entry@.env_var == (match entry.env_var {
            Some(text) => Some(text@),
            None => None,
        }),
        entry@.file == (match entry.file {
            Some(text) => Some(text@),
            None => None,
        }),
        SourceRead::Text(secret)@ == ReadView::Text(secret_text(secret)),
        SourceRead::NotOpened(reason)@ == ReadView::NotOpened(reason@),
        SourceRead::NotRead(reason)@ == ReadView::NotRead(reason@),
        Source::Inline@ == SourceView::Inline,
        Source::Variable(name)@ == SourceView::Variable(name@),
        Source::File(name)@ == SourceView::File(name@),
        input@.0 == input.entry@,
        input@.1 == input.read@,
{
}

/// What a request asks for and what becomes of it are seen as they are.
pub proof fn law_requests_are_seen_as_they_are(
    request: CredentialRequest,
    reference: CredentialRef,
    outcome: CredentialOutcome,
)
    ensures
        request@.name == (match request.name {
            Some(text) => Some(text@),
            None => None,
        }),
        request@.namespace == (match request.namespace {
            Some(text) => Some(text@),
            None => None,
        }),
        request@.key == (match request.key {
            Some(text) => Some(text@),
            None => None,
        }),
        request@.strategy == (match request.strategy {
            Some(text) => Some(text@),
            None => None,
        }),
        reference@.name == reference.name@,
        reference@.namespace == reference.namespace@,
        reference@.key == reference.key@,
        outcome is Continue <==> outcome@ is Continue,
        outcome matches CredentialOutcome::Reject(status) ==> outcome@
            == CredentialOutcomeView::Reject(status),
        outcome matches CredentialOutcome::Authorize { remove, set, value } ==> outcome@ == (
        CredentialOutcomeView::Authorize { remove: remove@, set: set@, value: value@ }),
{
}

} // verus!
