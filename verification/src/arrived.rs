//! A Stream as it arrived: its bytes, and where they came from.

use vstd::prelude::*;

verus! {

/// One Stream, whole, and the URI of the file it was.
#[derive(Clone, Debug, PartialEq, Eq)]
pub struct Arrived {
    pub origin_uri: String,
    pub bytes: Vec<u8>,
}

/// [`Arrived`] as a mathematical value.
#[verifier::ext_equal]
pub struct ArrivedView {
    pub origin_uri: Seq<char>,
    pub bytes: Seq<u8>,
}

impl View for Arrived {
    type V = ArrivedView;

    open spec fn view(&self) -> ArrivedView {
        ArrivedView { origin_uri: self.origin_uri@, bytes: self.bytes@ }
    }
}

impl Arrived {
    /// These bytes, from there.
    #[must_use]
    pub fn new(origin_uri: String, bytes: Vec<u8>) -> (arrived: Self)
        ensures
            arrived@ == (ArrivedView { origin_uri: origin_uri@, bytes: bytes@ }),
    {
        Arrived { origin_uri, bytes }
    }
}

/// The URI of a file: `nfs://server/export/name`.
pub open spec fn origin_of(server: Seq<char>, export: Seq<char>, name: Seq<char>) -> Seq<char> {
    "nfs://"@ + server + export + "/"@ + name
}

/// The URI of a file: `nfs://server/export/name`.
pub fn origin(server: &str, export: &str, name: &str) -> (uri: String)
    ensures
        uri@ == origin_of(server@, export@, name@),
{
    let mut uri = "nfs://".to_owned();
    uri.append(server);
    uri.append(export);
    uri.append("/");
    uri.append(name);
    uri
}

/// The origin of a file is the server, the export and the name behind
/// `nfs://`, with a slash before the name.
pub proof fn origins_are_told(server: Seq<char>, export: Seq<char>, name: Seq<char>)
    ensures
        origin_of(server, export, name) == seq!['n', 'f', 's', ':', '/', '/'] + server + export
            + seq!['/'] + name,
{
    reveal_strlit("nfs://");
    reveal_strlit("/");
    assert("nfs://"@ =~= seq!['n', 'f', 's', ':', '/', '/']);
    assert("/"@ =~= seq!['/']);
}

} // verus!
