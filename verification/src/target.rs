//! What a send is addressed to: `nfs://host:2049/export/name`, or a name
//! alone on the configured server and export.

use vstd::prelude::*;

#[allow(unused_imports)]
use crate::arrived;
#[allow(unused_imports)]
use crate::error::{self, Failure};
use crate::error::{Result, TransportError};
#[allow(unused_imports)]
use crate::procedure::Carried;
use crate::text;

verus! {

/// The server and the path that a URI names: what stands before the first
/// slash after `nfs://`, and what stands after it.
pub open spec fn uri_parts(target: Seq<char>) -> Option<(Seq<char>, Seq<char>)> {
    if "nfs://"@.is_prefix_of(target) {
        let rest = target.skip("nfs://"@.len() as int);
        match rest.index_of_first('/') {
            Some(at) => Some((rest.take(at), rest.skip(at + 1))),
            None => None,
        }
    } else {
        None
    }
}

/// The export and the name that a path is: what stands before its last
/// slash, and what stands after it, where neither is empty.
pub open spec fn path_parts(path: Seq<char>) -> Option<(Seq<char>, Seq<char>)> {
    match path.index_of_last('/') {
        Some(at) => if 0 < at && at + 1 < path.len() {
            Some((path.take(at), path.skip(at + 1)))
        } else {
            None
        },
        None => None,
    }
}

/// The server, the export and the name a target stands for, where `server`
/// and `export` are what is configured.
pub open spec fn resolved(
    server: Seq<char>,
    export: Seq<char>,
    target: Seq<char>,
) -> Carried<(Seq<char>, Seq<char>, Seq<char>)> {
    match uri_parts(target) {
        Some((host, path)) => match path_parts(path) {
            Some((export, name)) => Ok((host, "/"@ + export, name)),
            None => Err(
                error::permanent_failure(
                    text::debug_text(target) + " is not nfs://host/export/name"@,
                ),
            ),
        },
        None => if target.contains('/') || target.len() == 0 {
            Err(
                error::permanent_failure(
                    text::debug_text(target) + " is not a name on "@ + export,
                ),
            )
        } else {
            Ok((server, export, target))
        },
    }
}

/// Where the first slash of a text is.
fn first_slash(text: &str) -> (at: Option<usize>)
    ensures
        match text@.index_of_first('/') {
            Some(place) => at is Some && at->Some_0 == place && 0 <= place < text@.len(),
            None => at is None,
        },
        at is Some <==> text@.contains('/'),
{
    proof {
        text@.index_of_first_ensures('/');
    }
    let len = text.unicode_len();
    let mut at: usize = 0;
    while at < len
        invariant
            at <= len,
            len == text@.len(),
            forall|i: int| 0 <= i < at ==> text@[i] != '/',
        decreases len - at,
    {
        if text.get_char(at) == '/' {
            proof {
                assert(text@.contains(text@[at as int]));
                text@.index_of_first_ensures('/');
            }
            return Some(at);
        }
        at += 1;
    }
    None
}

/// Where the last slash of a text is.
fn last_slash(text: &str) -> (at: Option<usize>)
    ensures
        match text@.index_of_last('/') {
            Some(place) => at is Some && at->Some_0 == place && 0 <= place < text@.len(),
            None => at is None,
        },
{
    proof {
        text@.index_of_last_ensures('/');
    }
    let len = text.unicode_len();
    let mut end: usize = len;
    while end > 0
        invariant
            end <= len,
            len == text@.len(),
            forall|i: int| end <= i < len ==> text@[i] != '/',
        decreases end,
    {
        if text.get_char(end - 1) == '/' {
            proof {
                assert(text@.contains(text@[end - 1]));
                text@.index_of_last_ensures('/');
            }
            return Some(end - 1);
        }
        end -= 1;
    }
    None
}

/// The server and the path that a URI names.
fn split_uri(target: &str) -> (parts: Option<(&str, &str)>)
    ensures
        match uri_parts(target@) {
            Some((host, path)) => parts is Some && parts->Some_0.0@ == host && parts->Some_0.1@
                == path,
            None => parts is None,
        },
{
    proof {
        reveal_strlit("nfs://");
    }
    let len = target.unicode_len();
    if len < 6 || !text::same_text(target.substring_char(0, 6), "nfs://") {
        return None;
    }
    let rest = target.substring_char(6, len);
    assert(rest@ =~= target@.skip(6));
    let at = first_slash(rest)?;
    let host = rest.substring_char(0, at);
    let path = rest.substring_char(at + 1, len - 6);
    assert(host@ =~= rest@.take(at as int));
    assert(path@ =~= rest@.skip(at + 1));
    Some((host, path))
}

/// The export and the name that a path is.
fn split_path(path: &str) -> (parts: Option<(&str, &str)>)
    ensures
        match path_parts(path@) {
            Some((export, name)) => parts is Some && parts->Some_0.0@ == export && parts->Some_0.1@
                == name,
            None => parts is None,
        },
{
    let len = path.unicode_len();
    let at = last_slash(path)?;
    if at == 0 || at + 1 >= len {
        return None;
    }
    let export = path.substring_char(0, at);
    let name = path.substring_char(at + 1, len);
    assert(export@ =~= path@.take(at as int));
    assert(name@ =~= path@.skip(at + 1));
    Some((export, name))
}

/// What is said of a URI that names no file, `quoted`.
pub fn not_a_file(quoted: String) -> (error: TransportError)
    ensures
        error@ == error::permanent_failure(quoted@ + " is not nfs://host/export/name"@),
{
    let mut message = quoted;
    message.append(" is not nfs://host/export/name");
    TransportError::permanent(message)
}

/// What is said of a name that cannot be one on `export`, `quoted`.
pub fn not_a_name(quoted: String, export: &str) -> (error: TransportError)
    ensures
        error@ == error::permanent_failure(quoted@ + " is not a name on "@ + export@),
{
    let mut message = quoted;
    message.append(" is not a name on ");
    message.append(export);
    TransportError::permanent(message)
}

/// Where a target names the server, export and file itself, or is a name
/// alone on `server` and `export`.
///
/// # Errors
/// Where it is neither.
pub fn resolve<'a>(server: &'a str, export: &str, target: &'a str) -> (named: Result<
    (&'a str, String, &'a str),
>)
    ensures
        match resolved(server@, export@, target@) {
            Ok((host, path, name)) => named is Ok && named->Ok_0.0@ == host && named->Ok_0.1@
                == path && named->Ok_0.2@ == name,
            Err(failure) => named is Err && named->Err_0@ == failure,
        },
{
    match split_uri(target) {
        Some((host, path)) => match split_path(path) {
            Some((export, name)) => {
                let mut whole = "/".to_owned();
                whole.append(export);
                Ok((host, whole, name))
            },
            None => Err(not_a_file(text::quoted(target))),
        },
        None => if first_slash(target).is_some() || target.is_empty() {
            Err(not_a_name(text::quoted(target), export))
        } else {
            Ok((server, export.to_owned(), target))
        },
    }
}

/// A name alone is a file on what is configured.
pub proof fn names_resolve(server: Seq<char>, export: Seq<char>, name: Seq<char>)
    requires
        name.len() > 0,
        !name.contains('/'),
    ensures
        resolved(server, export, name) == Ok::<_, Failure>((server, export, name)),
{
    reveal_strlit("nfs://");
    if "nfs://"@.is_prefix_of(name) {
        assert(name[4] == "nfs://"@[4]);
        assert(name.contains(name[4]));
    }
}

/// The origin of a file is a target that stands for that file, whatever is
/// configured.
pub proof fn origins_resolve(
    server: Seq<char>,
    export: Seq<char>,
    host: Seq<char>,
    path: Seq<char>,
    name: Seq<char>,
)
    requires
        !host.contains('/'),
        path.len() > 0,
        name.len() > 0,
        !name.contains('/'),
    ensures
        resolved(server, export, arrived::origin_of(host, "/"@ + path, name)) == Ok::<_, Failure>(
            (host, "/"@ + path, name),
        ),
{
    reveal_strlit("nfs://");
    reveal_strlit("/");
    let target = arrived::origin_of(host, "/"@ + path, name);
    let rest = host + "/"@ + path + "/"@ + name;
    assert(target =~= "nfs://"@ + rest);
    assert(target.skip(6) =~= rest);
    assert("nfs://"@.is_prefix_of(target));
    rest.index_of_first_ensures('/');
    let first = host.len() as int;
    assert(rest[first] == '/');
    assert(rest.contains(rest[first]));
    let at = rest.index_of_first('/')->Some_0;
    if at < first {
        assert(rest[at] == host[at]);
        assert(host.contains(host[at]));
    }
    assert(at == first);
    assert(rest.take(first) =~= host);
    let whole = path + "/"@ + name;
    assert(rest.skip(first + 1) =~= whole);
    whole.index_of_last_ensures('/');
    let last = path.len() as int;
    assert(whole[last] == '/');
    assert(whole.contains(whole[last]));
    let end = whole.index_of_last('/')->Some_0;
    if end > last {
        assert(whole[end] == name[end - last - 1]);
        assert(name.contains(name[end - last - 1]));
    }
    assert(end == last);
    assert(whole.take(last) =~= path);
    assert(whole.skip(last + 1) =~= name);
}

/// A target that stands for no file will stand for none later.
pub proof fn bad_targets_are_permanent(server: Seq<char>, export: Seq<char>, target: Seq<char>)
    ensures
        resolved(server, export, target) is Err ==> !resolved(
            server,
            export,
            target,
        )->Err_0.retryable,
{
}

/// What a target stands for is a name that is not empty and has no slash: the
/// target itself on what is configured, or what stands behind the last slash
/// of a URI, whose server is what stands between `nfs://` and the next slash,
/// and whose export is what stands between, the slash before it included.
pub proof fn targets_are_names_or_uris(server: Seq<char>, export: Seq<char>, target: Seq<char>)
    ensures
        resolved(server, export, target) matches Ok((host, path, name)) ==> {
            &&& name.len() > 0
            &&& !name.contains('/')
            &&& {
                ||| target == name && host == server && path == export
                ||| {
                    &&& target == seq!['n', 'f', 's', ':', '/', '/'] + host + path + seq!['/']
                        + name
                    &&& !host.contains('/')
                    &&& path.len() > 1
                    &&& path[0] == '/'
                }
            }
        },
{
    if let Ok((host, path, name)) = resolved(server, export, target) {
        reveal_strlit("nfs://");
        reveal_strlit("/");
        assert("nfs://"@ =~= seq!['n', 'f', 's', ':', '/', '/']);
        assert("/"@ =~= seq!['/']);
        if let Some((first, rest)) = uri_parts(target) {
            let all = target.skip(6);
            all.index_of_first_ensures('/');
            rest.index_of_last_ensures('/');
            let at = all.index_of_first('/')->Some_0;
            let last = rest.index_of_last('/')->Some_0;
            assert(all =~= first + seq!['/'] + rest);
            assert(rest =~= rest.take(last) + seq!['/'] + name);
            assert(target =~= seq!['n', 'f', 's', ':', '/', '/'] + all);
            assert(target =~= seq!['n', 'f', 's', ':', '/', '/'] + host + path + seq!['/'] + name);
            assert forall|i: int| 0 <= i < host.len() implies #[trigger] host[i] != '/' by {
                assert(host[i] == all[i]);
            }
            assert forall|i: int| 0 <= i < name.len() implies #[trigger] name[i] != '/' by {
                assert(name[i] == rest[last + 1 + i]);
            }
        }
    }
}

/// A target that stands for no file is told as it is: one that opens with
/// `nfs://` and has a slash behind it as no URI of a file, any other as no
/// name on the export.
pub proof fn bad_targets_are_told(server: Seq<char>, export: Seq<char>, target: Seq<char>)
    ensures
        resolved(server, export, target) matches Err(failure) ==> failure.message
            == text::debug_text(target) + (if target.len() >= 6 && target.take(6) == seq![
            'n',
            'f',
            's',
            ':',
            '/',
            '/',
        ] && target.skip(6).contains('/') {
            " is not nfs://host/export/name"@
        } else {
            " is not a name on "@ + export
        }),
{
    reveal_strlit("nfs://");
    assert("nfs://"@ =~= seq!['n', 'f', 's', ':', '/', '/']);
    if "nfs://"@.is_prefix_of(target) {
        target.skip(6).index_of_first_ensures('/');
        assert(target.take(6) =~= "nfs://"@);
    }
    texts_regroup(text::debug_text(target), " is not a name on "@, export);
}

/// Three texts are put together in one way.
proof fn texts_regroup(one: Seq<char>, two: Seq<char>, three: Seq<char>)
    ensures
        one + two + three == one + (two + three),
{
    assert(one + two + three =~= one + (two + three));
}

} // verus!
