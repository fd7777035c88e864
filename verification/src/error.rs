//! What can go wrong with a link or a download.
use crate::text::{
    decimal, decimal_is_made_of_digits, decimal_reads_back, push_decimal, starts_with,
};
use vstd::prelude::*;

verus! {

/// Why a link was refused or a download stopped.
#[derive(Debug)]
pub enum DownloadError {
    /// A failure described by its own text.
    Message(String),
    /// The network failed; the text is the cause.
    Network(String),
    /// Reading or writing a file failed; the text is the cause.
    Io(String),
    /// JSON text could not be read; the text is the cause.
    Json(String),
    /// A link is no URL; the text is the cause.
    Url(String),
    /// Base64 text could not be decoded; the text is the cause.
    Base64(String),
    /// The user cancelled the download.
    Cancelled,
    /// The link is protected and no password was given.
    PasswordRequired,
    /// The service answered with an error code.
    MegaApi(i64),
    /// A download request was answered with this HTTP status.
    HttpStatus(u16),
    /// A download request was answered with the wrong number of bytes.
    ChunkLength {
        /// The first byte that was asked for.
        start: u64,
        /// The number of bytes that was asked for.
        expected: u64,
        /// The number of bytes that came.
        actual: u64,
    },
    /// The downloaded file is not the one that the key belongs to.
    MacMismatch,
}

/// The mathematical form of a `DownloadError`.
pub enum ErrorView {
    Message(Seq<char>),
    Network(Seq<char>),
    Io(Seq<char>),
    Json(Seq<char>),
    Url(Seq<char>),
    Base64(Seq<char>),
    Cancelled,
    PasswordRequired,
    MegaApi(i64),
    HttpStatus(u16),
    ChunkLength { start: u64, expected: u64, actual: u64 },
    MacMismatch,
}

impl View for DownloadError {
    type V = ErrorView;

    open spec fn view(&self) -> ErrorView {
        match self {
            DownloadError::Message(text) => ErrorView::Message(text@),
            DownloadError::Network(text) => ErrorView::Network(text@),
            DownloadError::Io(text) => ErrorView::Io(text@),
            DownloadError::Json(text) => ErrorView::Json(text@),
            DownloadError::Url(text) => ErrorView::Url(text@),
            DownloadError::Base64(text) => ErrorView::Base64(text@),
            DownloadError::Cancelled => ErrorView::Cancelled,
            DownloadError::PasswordRequired => ErrorView::PasswordRequired,
            DownloadError::MegaApi(code) => ErrorView::MegaApi(*code),
            DownloadError::HttpStatus(status) => ErrorView::HttpStatus(*status),
            DownloadError::ChunkLength { start, expected, actual } => ErrorView::ChunkLength {
                start: *start,
                expected: *expected,
                actual: *actual,
            },
            DownloadError::MacMismatch => ErrorView::MacMismatch,
        }
    }
}

/// `n` written in decimal, with a minus sign in front of a negative number.
pub open spec fn signed_decimal(n: int) -> Seq<char> {
    if n < 0 {
        seq!['-'] + decimal((-n) as nat)
    } else {
        decimal(n as nat)
    }
}

/// The sentence that tells the user about an error.
pub open spec fn error_text(error: ErrorView) -> Seq<char> {
    match error {
        ErrorView::Message(text) => text,
        ErrorView::Network(text) => "network error: "@ + text,
        ErrorView::Io(text) => "io error: "@ + text,
        ErrorView::Json(text) => "json error: "@ + text,
        ErrorView::Url(text) => "invalid url: "@ + text,
        ErrorView::Base64(text) => "base64 decode error: "@ + text,
        ErrorView::Cancelled => "download cancelled"@,
        ErrorView::PasswordRequired => "password-protected MEGA link requires a password"@,
        ErrorView::MegaApi(code) => "MEGA API returned "@ + signed_decimal(code as int),
        ErrorView::HttpStatus(status) => "HTTP status "@ + decimal(status as nat)
            + " while downloading"@,
        ErrorView::ChunkLength { start, expected, actual } =>
            "downloaded chunk length mismatch at byte "@ + decimal(start as nat) + ": expected "@
            + decimal(expected as nat) + ", got "@ + decimal(actual as nat),
        ErrorView::MacMismatch => "download integrity check failed"@,
    }
}

/// A failure described by `text`.
pub fn failure(text: &str) -> (error: DownloadError)
    ensures
        error@ == ErrorView::Message(text@),
{
    DownloadError::Message(text.to_string())
}

fn prefixed(prefix: &str, text: &str) -> (joined: String)
    ensures
        joined@ == prefix@ + text@,
{
    let mut joined = prefix.to_string();
    joined.append(text);
    joined
}

/// Appends `n` in decimal, with a minus sign in front of a negative number.
pub fn push_signed(out: &mut String, n: i64)
    ensures
        final(out)@ == old(out)@ + signed_decimal(n as int),
{
    if n < 0 {
        out.push('-');
        let magnitude: i128 = -(n as i128);
        push_decimal(out, magnitude as u128);
        assert(out@ == old(out)@ + (seq!['-'] + decimal((-n) as nat)));
    } else {
        push_decimal(out, n as u128);
    }
}

impl DownloadError {
    /// The sentence that tells the user about the error.
    pub fn message(&self) -> (text: String)
        ensures
            text@ == error_text(self@),
    {
        match self {
            DownloadError::Message(text) => text.clone(),
            DownloadError::Network(text) => prefixed("network error: ", text),
            DownloadError::Io(text) => prefixed("io error: ", text),
            DownloadError::Json(text) => prefixed("json error: ", text),
            DownloadError::Url(text) => prefixed("invalid url: ", text),
            DownloadError::Base64(text) => prefixed("base64 decode error: ", text),
            DownloadError::Cancelled => "download cancelled".to_string(),
            DownloadError::PasswordRequired =>
                "password-protected MEGA link requires a password".to_string(),
            DownloadError::MegaApi(code) => {
                let mut text = "MEGA API returned ".to_string();
                push_signed(&mut text, *code);
                text
            },
            DownloadError::HttpStatus(status) => {
                let mut text = "HTTP status ".to_string();
                push_decimal(&mut text, *status as u128);
                text.append(" while downloading");
                text
            },
            DownloadError::ChunkLength { start, expected, actual } => {
                let mut text = "downloaded chunk length mismatch at byte ".to_string();
                push_decimal(&mut text, *start as u128);
                text.append(": expected ");
                push_decimal(&mut text, *expected as u128);
                text.append(", got ");
                push_decimal(&mut text, *actual as u128);
                text
            },
            DownloadError::MacMismatch => "download integrity check failed".to_string(),
        }
    }
}

/// What an error says ends with its cause, where it has one, after words that name the kind.
pub proof fn causes_are_told(text: Seq<char>)
    ensures
        error_text(ErrorView::Message(text)) == text,
        ends_with(error_text(ErrorView::Network(text)), text),
        ends_with(error_text(ErrorView::Io(text)), text),
        ends_with(error_text(ErrorView::Json(text)), text),
        ends_with(error_text(ErrorView::Url(text)), text),
        ends_with(error_text(ErrorView::Base64(text)), text),
        starts_with(error_text(ErrorView::Network(text)), "network error: "@),
        starts_with(error_text(ErrorView::Io(text)), "io error: "@),
        starts_with(error_text(ErrorView::Json(text)), "json error: "@),
        starts_with(error_text(ErrorView::Url(text)), "invalid url: "@),
        starts_with(error_text(ErrorView::Base64(text)), "base64 decode error: "@),
{
    reveal_strlit("network error: ");
    reveal_strlit("io error: ");
    reveal_strlit("json error: ");
    reveal_strlit("invalid url: ");
    reveal_strlit("base64 decode error: ");
    lemma_joined("network error: "@, text);
    lemma_joined("io error: "@, text);
    lemma_joined("json error: "@, text);
    lemma_joined("invalid url: "@, text);
    lemma_joined("base64 decode error: "@, text);
}

/// Whether text ends with other text.
pub open spec fn ends_with(text: Seq<char>, end: Seq<char>) -> bool {
    text.len() >= end.len() && text.skip(text.len() - end.len()) == end
}

proof fn lemma_joined(front: Seq<char>, end: Seq<char>)
    ensures
        ends_with(front + end, end),
        starts_with(front + end, front),
{
    assert((front + end).skip(front.len() as int) =~= end);
    assert((front + end).take(front.len() as int) =~= front);
}

/// A number is told with its sign: a minus and digits below zero, and digits alone otherwise. Two
/// numbers are never told alike.
pub proof fn numbers_are_told_with_their_sign(n: int, m: int)
    ensures
        n < 0 ==> signed_decimal(n).len() > 1 && signed_decimal(n)[0] == '-'
            && crate::text::decimal_value(signed_decimal(n).skip(1)) == -n,
        n >= 0 ==> signed_decimal(n).len() > 0 && signed_decimal(n)[0] != '-'
            && crate::text::decimal_value(signed_decimal(n)) == n,
        signed_decimal(n) == signed_decimal(m) ==> n == m,
{
    lemma_signed(n);
    lemma_signed(m);
}

proof fn lemma_signed(n: int)
    ensures
        n < 0 ==> signed_decimal(n).len() > 1 && signed_decimal(n)[0] == '-'
            && crate::text::decimal_value(signed_decimal(n).skip(1)) == -n,
        n >= 0 ==> signed_decimal(n).len() > 0 && signed_decimal(n)[0] != '-'
            && crate::text::decimal_value(signed_decimal(n)) == n,
{
    let size = if n < 0 {
        (-n) as nat
    } else {
        n as nat
    };
    decimal_reads_back(size);
    decimal_is_made_of_digits(size, 0);
    if n < 0 {
        assert(signed_decimal(n).skip(1) =~= decimal(size));
    }
}

/// Errors that come with numbers tell them, and all others have a sentence of their own.
pub proof fn numbers_are_told(code: i64, status: u16, start: u64, expected: u64, actual: u64)
    ensures
        error_text(ErrorView::MegaApi(code)) == "MEGA API returned "@ + signed_decimal(code as int),
        error_text(ErrorView::HttpStatus(status)) == "HTTP status "@ + decimal(status as nat)
            + " while downloading"@,
        error_text(ErrorView::ChunkLength { start, expected, actual })
            == "downloaded chunk length mismatch at byte "@ + decimal(start as nat) + ": expected "@
            + decimal(expected as nat) + ", got "@ + decimal(actual as nat),
        error_text(ErrorView::Cancelled) == "download cancelled"@,
        error_text(ErrorView::PasswordRequired)
            == "password-protected MEGA link requires a password"@,
        error_text(ErrorView::MacMismatch) == "download integrity check failed"@,
{
}

} // verus!
