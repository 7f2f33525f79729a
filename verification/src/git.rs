//! Repositories and their working trees, as git tells of them.

use crate::digest::{framed, framing_is_prefix_free, hash_string, hex, hex_digest, sha256_of};
use crate::records::{LogicalRepository, RepositoryState, StateOf};
use crate::seqs::{concat_map, concat_map_first, concat_map_step};
use crate::sorted::{in_order, keys, sorted, texts, Key};
use crate::text::{characters, strip_suffix, trim_matches, trimmed, Order};
use vstd::prelude::*;
use vstd::utf8::{decode_utf8, encode_utf8, valid_utf8};

verus! {

/// Where a remote repository is: its host, if it has one, and its path.
#[derive(Debug)]
pub struct Remote {
    pub host: Option<String>,
    pub path: Vec<u8>,
}

/// The host and the path in the location of a remote repository, or nothing if it is no location.
pub uninterp spec fn remote_location(text: Seq<char>) -> Option<(Option<Seq<char>>, Seq<u8>)>;

/// Whether a location means the same on all platforms: on some of them a letter with a colon is a
/// drive, and a file location may name one.
pub open spec fn is_portable(text: Seq<char>) -> bool {
    !"file://"@.is_prefix_of(text) && !(text.len() > 1 && text[1] == ':')
}

/// The content of a [`Remote`].
pub open spec fn remote_content(remote: Option<Remote>) -> Option<(Option<Seq<char>>, Seq<u8>)> {
    match remote {
        Some(remote) => Some((crate::domain::optional_text(remote.host), remote.path@)),
        None => None,
    }
}

/// Calls `gix::url::parse`, and takes the host and the path of what it returns. Of a location that
/// means the same on all platforms, the result depends on the location alone; of others nothing is
/// claimed.
#[verifier::external_body]
fn parse_remote(text: &str) -> (r: Option<Remote>)
    ensures
        is_portable(text@) ==> remote_content(r) == remote_location(text@),
{
    match gix::url::parse(text) {
        Ok(url) => Some(Remote { host: url.host().map(str::to_owned), path: url.path.to_vec() }),
        Err(_) => None,
    }
}

/// Calls `std::str::from_utf8`. It returns the text that bytes encode, and nothing if they are no
/// valid encoding.
#[verifier::external_body]
pub(crate) fn text_in_utf8(bytes: &Vec<u8>) -> (r: Option<String>)
    ensures
        r is Some <==> valid_utf8(bytes@),
        r is Some ==> r->0@ == decode_utf8(bytes@),
{
    match std::str::from_utf8(bytes) {
        Ok(text) => Some(text.to_owned()),
        Err(_) => None,
    }
}

/// Whether a character is white space.
pub open spec fn is_white(c: char) -> bool {
    ||| '\u{9}' <= c <= '\u{d}'
    ||| c == ' '
    ||| c == '\u{85}'
    ||| c == '\u{a0}'
    ||| c == '\u{1680}'
    ||| '\u{2000}' <= c <= '\u{200a}'
    ||| c == '\u{2028}'
    ||| c == '\u{2029}'
    ||| c == '\u{202f}'
    ||| c == '\u{205f}'
    ||| c == '\u{3000}'
}

fn white(c: char) -> (r: bool)
    ensures
        r == is_white(c),
{
    ('\u{9}' <= c && c <= '\u{d}') || c == ' ' || c == '\u{85}' || c == '\u{a0}' || c == '\u{1680}' || ('\u{2000}' <= c && c
        <= '\u{200a}') || c == '\u{2028}' || c == '\u{2029}' || c == '\u{202f}' || c == '\u{205f}' || c == '\u{3000}'
}

/// Where a text begins after the white space at its start.
pub open spec fn first_dark(text: Seq<char>, at: int) -> int
    decreases text.len() - at,
{
    if 0 <= at < text.len() && is_white(text[at]) {
        first_dark(text, at + 1)
    } else {
        at
    }
}

/// Where a text ends before the white space at its end, but not before a place.
pub open spec fn last_dark(text: Seq<char>, from: int, end: int) -> int
    decreases end,
{
    if from < end <= text.len() && 0 < end && is_white(text[end - 1]) {
        last_dark(text, from, end - 1)
    } else {
        end
    }
}

/// A text without the white space around it.
pub open spec fn trim(text: Seq<char>) -> Seq<char> {
    let from = first_dark(text, 0);
    text.subrange(from, last_dark(text, from, text.len() as int))
}

/// A text without the white space around it.
pub fn trim_white<'a>(text: &'a str) -> (r: &'a str)
    ensures
        r@ == trim(text@),
{
    let all: Vec<char> = characters(text);
    let n: usize = all.len();
    let mut from: usize = 0;
    while from < n && white(all[from])
        invariant
            all@ == text@,
            n == all@.len(),
            from <= n,
            first_dark(text@, 0) == first_dark(text@, from as int),
        decreases n - from,
    {
        from = from + 1;
    }
    let mut end: usize = n;
    while from < end && white(all[end - 1])
        invariant
            all@ == text@,
            n == all@.len(),
            from <= end <= n,
            last_dark(text@, from as int, n as int) == last_dark(text@, from as int, end as int),
        decreases end,
    {
        end = end - 1;
    }
    text.substring_char(from, end)
}

/// A path without the slashes around it, and without the ending that repositories may have.
pub open spec fn bare_path(path: Seq<char>) -> Seq<char> {
    let inner = trim_matches(path, '/');
    if ".git"@.is_suffix_of(inner) {
        inner.take(inner.len() - ".git"@.len())
    } else {
        inner
    }
}

/// The name of a remote repository, however its location is written.
pub open spec fn canonical(host: Option<Seq<char>>, path: Seq<u8>) -> Option<Seq<char>> {
    match host {
        Some(host) => if valid_utf8(path) && host.len() > 0 && bare_path(decode_utf8(path)).len() > 0 {
            Some(host + "/"@ + bare_path(decode_utf8(path)))
        } else {
            None
        },
        None => None,
    }
}

/// The name of a remote repository, however its location is written.
pub fn canonical_url(remote: &Remote) -> (r: Option<String>)
    ensures
        crate::domain::optional_text(r) == canonical(crate::domain::optional_text(remote.host), remote.path@),
{
    let host: &str = match &remote.host {
        Some(host) => host.as_str(),
        None => {
            return None;
        },
    };
    let decoded: String = match text_in_utf8(&remote.path) {
        Some(decoded) => decoded,
        None => {
            return None;
        },
    };
    let inner: String = trimmed(decoded.as_str(), '/');
    let path: &str = match strip_suffix(inner.as_str(), ".git") {
        Some(path) => path,
        None => inner.as_str(),
    };
    proof {
        if ".git"@.is_suffix_of(inner@) {
            assert(path@ =~= inner@.take(inner@.len() - ".git"@.len()));
        }
    }
    if host.unicode_len() == 0 || path.unicode_len() == 0 {
        return None;
    }
    let mut name: String = host.to_owned();
    name.append("/");
    name.append(path);
    Some(name)
}

/// The name of a remote repository, given its location. The location is read without the white
/// space around it.
pub fn canonical_remote(remote: &str) -> (r: Option<String>)
    ensures
        is_portable(trim(remote@)) ==> crate::domain::optional_text(r) == (match remote_location(trim(remote@)) {
            Some((host, path)) => canonical(host, path),
            None => None,
        }),
        exists|host: Option<Seq<char>>, path: Seq<u8>| crate::domain::optional_text(r) == #[trigger] canonical(host, path),
{
    match parse_remote(trim_white(remote)) {
        Some(parsed) => canonical_url(&parsed),
        None => {
            assert(canonical(None, Seq::empty()) is None);
            None
        },
    }
}

/// The name of a repository that has no remote: that of its directory.
pub fn local_repository_identity(directory: Option<&str>, shown: &str) -> (r: Result<String, String>)
    ensures
        r is Ok <==> directory is Some,
        r is Ok ==> r->Ok_0@ == directory->0@,
        r is Err ==> r->Err_0@ == "cannot derive repository identity from "@ + shown@,
{
    match directory {
        Some(name) => Ok(name.to_owned()),
        None => {
            let mut message: String = "cannot derive repository identity from ".to_owned();
            message.append(shown);
            Err(message)
        },
    }
}

/// The name of a repository: that of its remote, if it has one with a name, and else that of its
/// directory.
pub fn repository_identity(remote: Option<&Remote>, directory: Option<&str>, shown: &str) -> (r: Result<String, String>)
    ensures
        ({
            let named = match remote {
                Some(remote) => canonical(crate::domain::optional_text(remote.host), remote.path@),
                None => None,
            };
            &&& r is Ok <==> named is Some || directory is Some
            &&& r is Ok ==> r->Ok_0@ == (match named {
                Some(name) => name,
                None => directory->0@,
            })
            &&& r is Err ==> r->Err_0@ == "cannot derive repository identity from "@ + shown@
        }),
{
    match remote {
        Some(remote) => {
            match canonical_url(remote) {
                Some(name) => {
                    return Ok(name);
                },
                None => {},
            }
        },
        None => {},
    }
    local_repository_identity(directory, shown)
}

/// A working tree of a repository. Its path is given by its parts.
#[derive(Debug)]
pub struct WorkingTree {
    pub path: Vec<String>,
    pub head: String,
    pub branch: Option<String>,
}

impl Key for WorkingTree {
    open spec fn key(&self) -> Seq<Seq<char>> {
        texts(self.path@)
    }

    fn compare(&self, other: &WorkingTree) -> (r: Order) {
        self.path.compare(&other.path)
    }
}

/// Working trees in the order of their paths.
pub fn ordered_trees(trees: Vec<WorkingTree>) -> (r: Vec<WorkingTree>)
    ensures
        r@.to_multiset() == trees@.to_multiset(),
        in_order(keys(r@)),
{
    sorted(trees)
}

/// Whether a path lies in a working tree.
pub open spec fn lies_in(tree: WorkingTree, path: Seq<Seq<char>>) -> bool {
    texts(tree.path@).is_prefix_of(path)
}

/// Which of the first working trees a path lies in: the innermost, and of several with one path the
/// last.
pub open spec fn innermost(trees: Seq<WorkingTree>, path: Seq<Seq<char>>, n: int) -> Option<int>
    decreases n,
{
    if n <= 0 {
        None
    } else {
        let before = innermost(trees, path, n - 1);
        if !lies_in(trees[n - 1], path) {
            before
        } else {
            match before {
                Some(i) => if trees[n - 1].path@.len() >= trees[i].path@.len() {
                    Some(n - 1)
                } else {
                    before
                },
                None => Some(n - 1),
            }
        }
    }
}

fn contains_path(tree: &WorkingTree, path: &Vec<String>) -> (r: bool)
    ensures
        r == lies_in(*tree, texts(path@)),
{
    proof {
        assert(texts(tree.path@).len() == tree.path@.len());
        assert(texts(path@).len() == path@.len());
    }
    if tree.path.len() > path.len() {
        return false;
    }
    let mut i: usize = 0;
    while i < tree.path.len()
        invariant
            i <= tree.path@.len() <= path@.len(),
            forall|k: int| 0 <= k < i ==> (#[trigger] tree.path@[k])@ == path@[k]@,
        decreases tree.path@.len() - i,
    {
        if !crate::text::same(tree.path[i].as_str(), path[i].as_str()) {
            proof {
                assert(texts(tree.path@)[i as int] != texts(path@)[i as int]);
                if lies_in(*tree, texts(path@)) {
                    assert(texts(path@).subrange(0, texts(tree.path@).len() as int)[i as int] == texts(path@)[i as int]);
                }
            }
            return false;
        }
        i = i + 1;
    }
    assert(texts(tree.path@) =~= texts(path@).subrange(0, texts(tree.path@).len() as int));
    true
}

/// The working tree that a path lies in.
pub fn select_tree(trees: &Vec<WorkingTree>, path: &Vec<String>) -> (r: Option<usize>)
    ensures
        r is Some <==> innermost(trees@, texts(path@), trees@.len() as int) is Some,
        r is Some ==> r->0 < trees@.len() && r->0 == innermost(trees@, texts(path@), trees@.len() as int)->0,
{
    let mut found: Option<usize> = None;
    let mut i: usize = 0;
    while i < trees.len()
        invariant
            i <= trees@.len(),
            found is Some <==> innermost(trees@, texts(path@), i as int) is Some,
            found is Some ==> found->0 < i && found->0 == innermost(trees@, texts(path@), i as int)->0,
        decreases trees@.len() - i,
    {
        if contains_path(&trees[i], path) {
            match found {
                Some(best) => {
                    if trees[i].path.len() >= trees[best].path.len() {
                        found = Some(i);
                    }
                },
                None => {
                    found = Some(i);
                },
            }
        }
        i = i + 1;
    }
    found
}

/// No working tree that a path lies in reaches further down than the one that is selected.
pub proof fn the_innermost_tree_is_selected(trees: Seq<WorkingTree>, path: Seq<Seq<char>>, i: int)
    requires
        0 <= i < trees.len(),
        lies_in(trees[i], path),
    ensures
        ({
            let found = innermost(trees, path, trees.len() as int);
            &&& found is Some
            &&& 0 <= found->0 < trees.len()
            &&& lies_in(trees[found->0], path)
            &&& trees[i].path@.len() <= trees[found->0].path@.len()
        }),
{
    innermost_among(trees, path, i, trees.len() as int);
}

proof fn innermost_among(trees: Seq<WorkingTree>, path: Seq<Seq<char>>, i: int, n: int)
    requires
        0 <= i < n <= trees.len(),
        lies_in(trees[i], path),
    ensures
        ({
            let found = innermost(trees, path, n);
            &&& found is Some
            &&& 0 <= found->0 < n
            &&& lies_in(trees[found->0], path)
            &&& trees[i].path@.len() <= trees[found->0].path@.len()
        }),
    decreases n,
{
    innermost_lies(trees, path, n - 1);
    if i < n - 1 {
        innermost_among(trees, path, i, n - 1);
    }
}

proof fn innermost_lies(trees: Seq<WorkingTree>, path: Seq<Seq<char>>, n: int)
    requires
        n <= trees.len(),
    ensures
        innermost(trees, path, n) matches Some(i) ==> 0 <= i < n && lies_in(trees[i], path),
    decreases n,
{
    if n > 0 {
        innermost_lies(trees, path, n - 1);
    }
}

/// A source file: its path and its text.
#[derive(Debug)]
pub struct Source {
    pub path: String,
    pub text: String,
}

/// The content of sources.
pub open spec fn source_texts(list: Seq<Source>) -> Seq<(Seq<char>, Seq<char>)> {
    list.map_values(|source: Source| (source.path@, source.text@))
}

/// What a source contributes to the digest of a state.
pub open spec fn source_bytes(source: (Seq<char>, Seq<char>)) -> Seq<u8> {
    framed(source.0) + framed(source.1)
}

/// What goes into the digest of a state: the repository, its head if it has one, and the sources.
pub open spec fn state_bytes(repository: Seq<char>, head: Option<Seq<char>>, sources: Seq<(Seq<char>, Seq<char>)>) -> Seq<u8> {
    framed(repository) + (match head {
        Some(head) => seq![1u8] + framed(head),
        None => seq![0u8],
    }) + concat_map(sources, |source: (Seq<char>, Seq<char>)| source_bytes(source))
}

/// The fingerprint of a state.
pub open spec fn state_name(repository: Seq<char>, head: Option<Seq<char>>, sources: Seq<(Seq<char>, Seq<char>)>) -> Seq<char> {
    hex(sha256_of(state_bytes(repository, head, sources)))
}

/// The fingerprint of a state: a digest of the repository, its head and the sources.
pub fn state_fingerprint(repository: &str, head: Option<&str>, sources: &Vec<Source>) -> (r: String)
    ensures
        r@ == state_name(repository@, crate::ids::borrowed_text(head), source_texts(sources@)),
{
    let ghost all = source_texts(sources@);
    let ghost piece = |source: (Seq<char>, Seq<char>)| source_bytes(source);
    let mut bytes: Vec<u8> = Vec::new();
    hash_string(&mut bytes, repository);
    match head {
        Some(head) => {
            bytes.push(1);
            hash_string(&mut bytes, head);
        },
        None => {
            bytes.push(0);
        },
    }
    let ghost front = bytes@;
    proof {
        assert(front =~= framed(repository@) + (match crate::ids::borrowed_text(head) {
            Some(head) => seq![1u8] + framed(head),
            None => seq![0u8],
        }));
        assert(front + concat_map(all.take(0), piece) =~= front);
    }
    let mut i: usize = 0;
    while i < sources.len()
        invariant
            i <= sources@.len(),
            all == source_texts(sources@),
            piece == (|source: (Seq<char>, Seq<char>)| source_bytes(source)),
            bytes@ == front + concat_map(all.take(i as int), piece),
        decreases sources@.len() - i,
    {
        hash_string(&mut bytes, sources[i].path.as_str());
        hash_string(&mut bytes, sources[i].text.as_str());
        proof {
            concat_map_step(all, i as int, piece);
            assert(all[i as int] == (sources@[i as int].path@, sources@[i as int].text@));
            assert(bytes@ =~= front + concat_map(all.take(i as int + 1), piece));
        }
        i = i + 1;
    }
    assert(all.take(all.len() as int) =~= all);
    hex_digest(&bytes)
}

/// A repository in the state of the working tree that a path lies in. Without a working tree there
/// is an error; without git there is no head.
pub fn repository_state(identity: String, trees: Option<&Vec<WorkingTree>>, path: &Vec<String>, shown: &str, sources: &Vec<Source>) -> (r: Result<
    RepositoryState,
    String,
>)
    ensures
        ({
            let found = match trees {
                Some(trees) => innermost(trees@, texts(path@), trees@.len() as int),
                None => None,
            };
            &&& r is Ok <==> trees is None || found is Some
            &&& r is Err ==> r->Err_0@ == shown@ + " is not inside a discovered working tree"@
            &&& r is Ok ==> {
                let head = match trees {
                    Some(trees) => Some(trees@[found->0].head@),
                    None => None,
                };
                r->Ok_0@ == (StateOf {
                    repository: identity@,
                    head,
                    fingerprint: state_name(identity@, head, source_texts(sources@)),
                })
            }
        }),
{
    let head: Option<String> = match trees {
        Some(trees) => {
            match select_tree(trees, path) {
                Some(at) => Some(trees[at].head.clone()),
                None => {
                    let mut message: String = shown.to_owned();
                    message.append(" is not inside a discovered working tree");
                    return Err(message);
                },
            }
        },
        None => None,
    };
    let fingerprint: String = match &head {
        Some(head) => state_fingerprint(identity.as_str(), Some(head.as_str()), sources),
        None => state_fingerprint(identity.as_str(), None, sources),
    };
    Ok(RepositoryState { repository: LogicalRepository { identity }, head, fingerprint })
}

/// Whether texts are short enough for their lengths to be framed.
pub open spec fn can_be_framed(sources: Seq<(Seq<char>, Seq<char>)>) -> bool {
    forall|i: int|
        0 <= i < sources.len() ==> encode_utf8((#[trigger] sources[i]).0).len() <= u64::MAX && encode_utf8(sources[i].1).len()
            <= u64::MAX
}

proof fn framed_is_not_empty(text: Seq<char>)
    ensures
        framed(text).len() > 0,
{
    let n = encode_utf8(text).len();
    assert(crate::digest::little_endian(n, 8).len() > 0);
}

proof fn sources_are_told_apart(a: Seq<(Seq<char>, Seq<char>)>, b: Seq<(Seq<char>, Seq<char>)>)
    requires
        can_be_framed(a),
        can_be_framed(b),
        concat_map(a, |source: (Seq<char>, Seq<char>)| source_bytes(source)) == concat_map(
            b,
            |source: (Seq<char>, Seq<char>)| source_bytes(source),
        ),
    ensures
        a == b,
    decreases a.len() + b.len(),
{
    let piece = |source: (Seq<char>, Seq<char>)| source_bytes(source);
    if a.len() > 0 {
        concat_map_first(a, piece);
        framed_is_not_empty(a[0].0);
    }
    if b.len() > 0 {
        concat_map_first(b, piece);
        framed_is_not_empty(b[0].0);
    }
    if a.len() > 0 && b.len() > 0 {
        let x = framed(a[0].1) + concat_map(a.skip(1), piece);
        let y = framed(b[0].1) + concat_map(b.skip(1), piece);
        assert(concat_map(a, piece) =~= framed(a[0].0) + x);
        assert(concat_map(b, piece) =~= framed(b[0].0) + y);
        framing_is_prefix_free(a[0].0, b[0].0, x, y);
        framing_is_prefix_free(a[0].1, b[0].1, concat_map(a.skip(1), piece), concat_map(b.skip(1), piece));
        assert forall|i: int| 0 <= i < a.skip(1).len() implies encode_utf8((#[trigger] a.skip(1)[i]).0).len() <= u64::MAX
            && encode_utf8(a.skip(1)[i].1).len() <= u64::MAX by {
            assert(a.skip(1)[i] == a[i + 1]);
        }
        assert forall|i: int| 0 <= i < b.skip(1).len() implies encode_utf8((#[trigger] b.skip(1)[i]).0).len() <= u64::MAX
            && encode_utf8(b.skip(1)[i].1).len() <= u64::MAX by {
            assert(b.skip(1)[i] == b[i + 1]);
        }
        sources_are_told_apart(a.skip(1), b.skip(1));
        assert(a =~= seq![a[0]] + a.skip(1));
        assert(b =~= seq![b[0]] + b.skip(1));
    } else {
        assert(concat_map(Seq::<(Seq<char>, Seq<char>)>::empty(), piece).len() == 0);
        assert(a.len() == 0 && b.len() == 0);
        assert(a =~= b);
    }
}

/// Two states go into a digest as the same bytes only if they have the same repository, the same
/// head and the same sources.
pub proof fn states_are_told_apart(
    repository: Seq<char>,
    head: Option<Seq<char>>,
    sources: Seq<(Seq<char>, Seq<char>)>,
    other_repository: Seq<char>,
    other_head: Option<Seq<char>>,
    other_sources: Seq<(Seq<char>, Seq<char>)>,
)
    requires
        state_bytes(repository, head, sources) == state_bytes(other_repository, other_head, other_sources),
        encode_utf8(repository).len() <= u64::MAX,
        encode_utf8(other_repository).len() <= u64::MAX,
        head matches Some(text) ==> encode_utf8(text).len() <= u64::MAX,
        other_head matches Some(text) ==> encode_utf8(text).len() <= u64::MAX,
        can_be_framed(sources),
        can_be_framed(other_sources),
    ensures
        repository == other_repository,
        head == other_head,
        sources == other_sources,
{
    let piece = |source: (Seq<char>, Seq<char>)| source_bytes(source);
    let p = concat_map(sources, piece);
    let q = concat_map(other_sources, piece);
    let marked = |head: Option<Seq<char>>|
        match head {
            Some(head) => seq![1u8] + framed(head),
            None => seq![0u8],
        };
    assert(state_bytes(repository, head, sources) =~= framed(repository) + (marked(head) + p));
    assert(state_bytes(other_repository, other_head, other_sources) =~= framed(other_repository) + (marked(other_head) + q));
    framing_is_prefix_free(repository, other_repository, marked(head) + p, marked(other_head) + q);
    assert((marked(head) + p)[0] == marked(head)[0]);
    assert((marked(other_head) + q)[0] == marked(other_head)[0]);
    match head {
        Some(text) => {
            assert(other_head is Some);
            let other = other_head->0;
            assert((marked(head) + p).skip(1) =~= framed(text) + p);
            assert((marked(other_head) + q).skip(1) =~= framed(other) + q);
            framing_is_prefix_free(text, other, p, q);
        },
        None => {
            assert(other_head is None);
            assert((marked(head) + p).skip(1) =~= p);
            assert((marked(other_head) + q).skip(1) =~= q);
        },
    }
    sources_are_told_apart(sources, other_sources);
}

/// The fields of a listing, each of which ends with a zero byte; what follows the last counts too.
pub open spec fn fields(bytes: Seq<u8>) -> Seq<Seq<u8>>
    decreases bytes.len(),
{
    if bytes.len() == 0 {
        seq![Seq::empty()]
    } else {
        let before = fields(bytes.drop_last());
        if bytes.last() == 0 {
            before.push(Seq::empty())
        } else {
            before.drop_last().push(before.last().push(bytes.last()))
        }
    }
}

/// How a listing of working trees is read: the trees that can be pruned, the tree that is read, and
/// whether it can be pruned.
pub ghost struct Listing {
    pub prunable: Seq<Seq<u8>>,
    pub tree: Option<Seq<u8>>,
    pub marked: bool,
}

/// What marks the path of a working tree.
pub open spec fn tree_mark() -> Seq<u8> {
    seq![119u8, 111, 114, 107, 116, 114, 101, 101, 32]
}

/// What marks a working tree that can be pruned.
pub open spec fn prune_mark() -> Seq<u8> {
    seq![112u8, 114, 117, 110, 97, 98, 108, 101]
}

/// How a field is read.
pub open spec fn listing_step(before: Listing, field: Seq<u8>) -> Listing {
    if field.len() == 0 {
        Listing {
            prunable: match before.tree {
                Some(tree) => if before.marked {
                    before.prunable.push(tree)
                } else {
                    before.prunable
                },
                None => before.prunable,
            },
            tree: None,
            marked: false,
        }
    } else if tree_mark().is_prefix_of(field) {
        Listing { tree: Some(field.skip(tree_mark().len() as int)), ..before }
    } else if field == prune_mark() || prune_mark().push(32).is_prefix_of(field) {
        Listing { marked: true, ..before }
    } else {
        before
    }
}

/// How the first fields are read.
pub open spec fn listing_of(list: Seq<Seq<u8>>, n: int) -> Listing
    decreases n,
{
    if n <= 0 {
        Listing { prunable: Seq::empty(), tree: None, marked: false }
    } else {
        listing_step(listing_of(list, n - 1), list[n - 1])
    }
}

/// The paths of the working trees that a listing marks as prunable.
pub open spec fn prunable_in(bytes: Seq<u8>) -> Seq<Seq<u8>> {
    listing_of(fields(bytes), fields(bytes).len() as int).prunable
}

/// The content of paths.
pub open spec fn byte_paths(list: Seq<Vec<u8>>) -> Seq<Seq<u8>> {
    list.map_values(|path: Vec<u8>| path@)
}

fn split_fields(bytes: &Vec<u8>) -> (r: Vec<Vec<u8>>)
    ensures
        byte_paths(r@) == fields(bytes@),
{
    let mut list: Vec<Vec<u8>> = Vec::new();
    let mut current: Vec<u8> = Vec::new();
    let mut i: usize = 0;
    proof {
        assert(bytes@.take(0) =~= Seq::empty());
        assert(byte_paths(list@).push(current@) =~= fields(bytes@.take(0)));
    }
    while i < bytes.len()
        invariant
            i <= bytes@.len(),
            byte_paths(list@).push(current@) == fields(bytes@.take(i as int)),
        decreases bytes@.len() - i,
    {
        let ghost before = list@;
        let ghost so_far = current@;
        let ghost known = fields(bytes@.take(i as int));
        proof {
            assert(bytes@.take(i as int + 1).drop_last() =~= bytes@.take(i as int));
            assert(bytes@.take(i as int + 1).last() == bytes@[i as int]);
            assert(known == byte_paths(before).push(so_far));
            assert(known.last() == so_far);
            assert(known.drop_last() =~= byte_paths(before));
        }
        if bytes[i] == 0 {
            list.push(current);
            current = Vec::new();
            proof {
                assert(byte_paths(list@) =~= byte_paths(before).push(so_far));
                assert(current@ =~= Seq::empty());
            }
        } else {
            current.push(bytes[i]);
        }
        i = i + 1;
    }
    let ghost before = list@;
    let ghost last = current@;
    list.push(current);
    proof {
        assert(bytes@.take(bytes@.len() as int) =~= bytes@);
        assert(byte_paths(list@) =~= byte_paths(before).push(last));
    }
    list
}

fn begins_with(field: &Vec<u8>, mark: &Vec<u8>) -> (r: bool)
    ensures
        r == mark@.is_prefix_of(field@),
{
    if mark.len() > field.len() {
        return false;
    }
    let mut i: usize = 0;
    while i < mark.len()
        invariant
            i <= mark@.len() <= field@.len(),
            forall|k: int| 0 <= k < i ==> mark@[k] == #[trigger] field@[k],
        decreases mark@.len() - i,
    {
        if mark[i] != field[i] {
            proof {
                if mark@.is_prefix_of(field@) {
                    assert(field@.subrange(0, mark@.len() as int)[i as int] == field@[i as int]);
                }
            }
            return false;
        }
        i = i + 1;
    }
    assert(mark@ =~= field@.subrange(0, mark@.len() as int));
    true
}

fn rest_of(field: &Vec<u8>, from: usize) -> (r: Vec<u8>)
    requires
        from <= field@.len(),
    ensures
        r@ == field@.skip(from as int),
{
    let mut rest: Vec<u8> = Vec::new();
    let mut i: usize = from;
    while i < field.len()
        invariant
            from <= i <= field@.len(),
            rest@ == field@.subrange(from as int, i as int),
        decreases field@.len() - i,
    {
        rest.push(field[i]);
        assert(rest@ =~= field@.subrange(from as int, i as int + 1));
        i = i + 1;
    }
    assert(rest@ =~= field@.skip(from as int));
    rest
}

/// The paths of the working trees that a listing marks as prunable.
pub fn prunable_worktrees(listing: &Vec<u8>) -> (r: Vec<Vec<u8>>)
    ensures
        byte_paths(r@) == prunable_in(listing@),
{
    let list: Vec<Vec<u8>> = split_fields(listing);
    let tree: Vec<u8> = vec![119u8, 111, 114, 107, 116, 114, 101, 101, 32];
    let prune: Vec<u8> = vec![112u8, 114, 117, 110, 97, 98, 108, 101];
    let prune_because: Vec<u8> = vec![112u8, 114, 117, 110, 97, 98, 108, 101, 32];
    proof {
        assert(tree@ =~= tree_mark());
        assert(prune@ =~= prune_mark());
        assert(prune_because@ =~= prune_mark().push(32));
    }
    let ghost all = fields(listing@);
    let mut paths: Vec<Vec<u8>> = Vec::new();
    let mut current: Option<Vec<u8>> = None;
    let mut marked: bool = false;
    let mut i: usize = 0;
    proof {
        assert(byte_paths(paths@) =~= Seq::empty());
        assert(all.len() == list@.len());
    }
    while i < list.len()
        invariant
            i <= list@.len(),
            all == byte_paths(list@),
            tree@ == tree_mark(),
            prune@ == prune_mark(),
            prune_because@ == prune_mark().push(32),
            byte_paths(paths@) == listing_of(all, i as int).prunable,
            current is Some <==> listing_of(all, i as int).tree is Some,
            current is Some ==> current->0@ == listing_of(all, i as int).tree->0,
            marked == listing_of(all, i as int).marked,
        decreases list@.len() - i,
    {
        let field: &Vec<u8> = &list[i];
        assert(all[i as int] == field@);
        if field.len() == 0 {
            let ghost before = paths@;
            match current {
                Some(path) => {
                    if marked {
                        let ghost added = path@;
                        paths.push(path);
                        assert(byte_paths(paths@) =~= byte_paths(before).push(added));
                    }
                },
                None => {},
            }
            current = None;
            marked = false;
        } else if begins_with(field, &tree) {
            current = Some(rest_of(field, tree.len()));
        } else if (field.len() == prune.len() && begins_with(field, &prune)) || begins_with(field, &prune_because) {
            proof {
                if field@.len() == prune@.len() && prune@.is_prefix_of(field@) {
                    assert(field@.subrange(0, prune@.len() as int) =~= field@);
                }
            }
            marked = true;
        } else {
            proof {
                if field@ == prune_mark() {
                    assert(field@.subrange(0, prune@.len() as int) =~= field@);
                }
            }
        }
        i = i + 1;
    }
    paths
}

/// Whether a path is among some.
pub fn is_prunable(paths: &Vec<Vec<u8>>, path: &Vec<u8>) -> (r: bool)
    ensures
        r == byte_paths(paths@).contains(path@),
{
    let mut i: usize = 0;
    while i < paths.len()
        invariant
            i <= paths@.len(),
            forall|k: int| 0 <= k < i ==> (#[trigger] paths@[k])@ != path@,
        decreases paths@.len() - i,
    {
        if paths[i].len() == path.len() && begins_with(&paths[i], path) {
            proof {
                assert(paths@[i as int]@.subrange(0, path@.len() as int) =~= paths@[i as int]@);
                assert(byte_paths(paths@)[i as int] == path@);
            }
            return true;
        }
        proof {
            if paths@[i as int]@ == path@ {
                assert(paths@[i as int]@.subrange(0, path@.len() as int) =~= path@);
            }
        }
        i = i + 1;
    }
    proof {
        if byte_paths(paths@).contains(path@) {
            let k = byte_paths(paths@).index_of(path@);
            assert(paths@[k]@ == path@);
        }
    }
    false
}

/// How a listing that failed is reported.
pub fn listing_failed(shown: &str, complaint: &str) -> (r: String)
    ensures
        r@ == "git worktree list failed for "@ + shown@ + ": "@ + trim(complaint@),
{
    let mut message: String = "git worktree list failed for ".to_owned();
    message.append(shown);
    message.append(": ");
    message.append(trim_white(complaint));
    message
}

} // verus!
