//! What the upload client computes: its requests' URL and authorization, the
//! uploaded file's name, and how a file is sent.

use vstd::prelude::*;
use vstd::utf8::encode_utf8;

verus! {

/// A save the server accepted.
#[derive(Clone, Debug, PartialEq)]
pub struct NewSave {
    pub save_id: String,
    pub remaining_save_slots: i32,
    pub used_save_slot: bool,
}

/// An error the server reported.
#[derive(Clone, Debug, PartialEq)]
pub struct RakalyError {
    pub name: String,
    pub msg: String,
}

impl RakalyError {
    /// The error as text.
    pub fn describe(&self) -> (r: String)
        ensures
            r@ == "server returned an error: "@ + self.name@ + " : "@ + self.msg@,
    {
        let mut m = String::from_str("server returned an error: ");
        m.append(self.name.as_str());
        m.append(" : ");
        m.append(self.msg.as_str());
        m
    }
}

/// The padded standard base64 text of these bytes.
pub uninterp spec fn base64_of(b: Seq<u8>) -> Seq<char>;

/// Relies on base64's `encode`: the text depends on the bytes alone.
#[verifier::external_body]
fn base64_text(b: &[u8]) -> (r: String)
    ensures
        r@ == base64_of(b@),
{
    base64::encode(b)
}

/// Relies on std's `Path::file_name`, its result read with `to_string_lossy`.
/// Which name comes back follows the platform's path rules, so only what
/// holds on every platform is stated: an empty path has no file name.
#[verifier::external_body]
fn path_file_name(p: &str) -> (r: Option<String>)
    ensures
        p@.len() == 0 ==> r is None,
{
    std::path::Path::new(p).file_name().map(|x| x.to_string_lossy().into_owned())
}

/// How a file is sent, told by its first four bytes.
#[derive(Clone, Copy, Debug, PartialEq, Eq)]
pub enum UploadKind {
    /// A zip archive, recompressed before it is sent.
    Zip,
    /// A plain-text save, compressed before it is sent.
    Text,
}

#[derive(Clone, Copy, Debug, PartialEq, Eq)]
pub enum UploadError {
    /// The path has no file name.
    NoFileName,
    /// The file starts with these bytes, which no known kind does.
    Signature([u8; 4]),
}

/// `PK\x03\x04` is a zip archive, `EU4t` a plain-text save.
pub fn upload_kind(magic: [u8; 4]) -> (r: Result<UploadKind, UploadError>)
    ensures
        r == if magic@ == seq![0x50u8, 0x4bu8, 0x03u8, 0x04u8] {
            Ok(UploadKind::Zip)
        } else if magic@ == seq![69u8, 85u8, 52u8, 116u8] {
            Ok(UploadKind::Text)
        } else {
            Err(UploadError::Signature(magic))
        },
{
    let zip = magic[0] == 0x50 && magic[1] == 0x4b && magic[2] == 0x03 && magic[3] == 0x04;
    let text = magic[0] == 69 && magic[1] == 85 && magic[2] == 52 && magic[3] == 116;
    proof {
        assert(zip <==> magic@ =~= seq![0x50u8, 0x4bu8, 0x03u8, 0x04u8]);
        assert(text <==> magic@ =~= seq![69u8, 85u8, 52u8, 116u8]);
    }
    if zip {
        Ok(UploadKind::Zip)
    } else if text {
        Ok(UploadKind::Text)
    } else {
        Err(UploadError::Signature(magic))
    }
}

/// Where and as whom saves are uploaded.
#[derive(Debug)]
pub struct UploadClient<'a> {
    pub user: &'a str,
    pub api_key: &'a str,
    pub base_url: &'a str,
}

impl<'a> UploadClient<'a> {
    /// `Basic ` and the base64 of `user:api_key`.
    pub fn format_basic_auth(&self) -> (r: String)
        ensures
            r@ == "Basic "@ + base64_of(encode_utf8(self.user@ + ":"@ + self.api_key@)),
    {
        let mut auth = String::from_str(self.user);
        auth.append(":");
        auth.append(self.api_key);
        let encoded = base64_text(auth.as_str().as_bytes());
        let mut r = String::from_str("Basic ");
        r.append(encoded.as_str());
        r
    }

    /// The endpoint that takes new saves.
    pub fn save_url(&self) -> (r: String)
        ensures
            r@ == self.base_url@ + "/"@ + "api/saves"@,
    {
        let mut r = String::from_str(self.base_url);
        r.append("/");
        r.append("api/saves");
        r
    }

    /// The name under which the file at `path` is uploaded: its last component
    /// by the platform's path rules; an error when it has none, as an empty
    /// path has not.
    pub fn upload_file_name(&self, path: &str) -> (r: Result<String, UploadError>)
        ensures
            r is Err ==> r->Err_0 == UploadError::NoFileName,
            path@.len() == 0 ==> r is Err,
    {
        match path_file_name(path) {
            Some(name) => Ok(name),
            None => Err(UploadError::NoFileName),
        }
    }

    /// The page of an uploaded save.
    pub fn save_page_url(&self, save_id: &str) -> (r: String)
        ensures
            r@ == self.base_url@ + "/eu4/saves/"@ + save_id@,
    {
        let mut r = String::from_str(self.base_url);
        r.append("/eu4/saves/");
        r.append(save_id);
        r
    }
}

} // verus!
