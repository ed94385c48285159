//! Browser bookmark entries, and how they are collected from a browser's
//! bookmark tree.

use crate::models::{clone_opt, clone_strings};
use crate::text::{
    all_within_text_limit, optional_within_text_limit, within_text_limit, chars_of, concat_str, join_strings, joined_with, opt_view, retain_non_blank, sorted_strings,
    sorted_texts, split_chars, split_on, str_eq, str_starts_with, texts_in_bounds, trim,
    trim_str, views, without_blank, MAX_TEXT_CHARS,
};
use crate::text_utils::{build_pinyin_index, packed_index, text_views};
use sha1::{Digest, Sha1};
use vstd::prelude::*;
use vstd::utf8::encode_utf8;

verus! {

/// One bookmark of the index.
#[derive(Debug, PartialEq, Eq)]
pub struct BookmarkEntry {
    pub id: String,
    pub title: String,
    pub url: String,
    pub folder_path: Option<String>,
    pub keywords: Vec<String>,
    pub pinyin_index: Option<String>,
}

/// What a `BookmarkEntry` holds, as plain texts.
pub struct BookmarkView {
    pub id: Seq<char>,
    pub title: Seq<char>,
    pub url: Seq<char>,
    pub folder_path: Option<Seq<char>>,
    pub keywords: Seq<Seq<char>>,
    pub pinyin_index: Option<Seq<char>>,
}

impl View for BookmarkEntry {
    type V = BookmarkView;

    open spec fn view(&self) -> BookmarkView {
        BookmarkView {
            id: self.id@,
            title: self.title@,
            url: self.url@,
            folder_path: opt_view(self.folder_path),
            keywords: views(self.keywords@),
            pinyin_index: opt_view(self.pinyin_index),
        }
    }
}

impl BookmarkView {
    /// Whether every text that ranking reads from this entry is short enough to score.
    pub open spec fn searchable(self) -> bool {
        &&& self.title.len() <= MAX_TEXT_CHARS
        &&& self.url.len() <= MAX_TEXT_CHARS
        &&& self.folder_path matches Some(p) ==> p.len() <= MAX_TEXT_CHARS
        &&& texts_in_bounds(self.keywords)
        &&& self.pinyin_index matches Some(p) ==> p.len() <= MAX_TEXT_CHARS
    }
}

/// The views of a sequence of bookmarks.
pub open spec fn bookmark_views(v: Seq<BookmarkEntry>) -> Seq<BookmarkView> {
    Seq::new(v.len(), |i: int| v[i]@)
}

impl Clone for BookmarkEntry {
    fn clone(&self) -> (r: Self)
        ensures
            r@ == self@,
    {
        BookmarkEntry {
            id: self.id.clone(),
            title: self.title.clone(),
            url: self.url.clone(),
            folder_path: clone_opt(&self.folder_path),
            keywords: clone_strings(&self.keywords),
            pinyin_index: clone_opt(&self.pinyin_index),
        }
    }
}

impl BookmarkEntry {
    /// Whether every text that ranking reads from this entry is short enough
    /// to score.
    pub fn is_searchable(&self) -> (r: bool)
        ensures
            r == self@.searchable(),
    {
        within_text_limit(self.title.as_str()) && within_text_limit(self.url.as_str())
            && optional_within_text_limit(&self.folder_path) && all_within_text_limit(
            &self.keywords,
        ) && optional_within_text_limit(&self.pinyin_index)
    }
}

/// A copy of a list of bookmarks.
pub fn clone_bookmarks(v: &Vec<BookmarkEntry>) -> (r: Vec<BookmarkEntry>)
    ensures
        bookmark_views(r@) == bookmark_views(v@),
{
    let mut r: Vec<BookmarkEntry> = Vec::new();
    let mut i: usize = 0;
    while i < v.len()
        invariant
            i <= v.len(),
            r.len() == i,
            forall|j: int| 0 <= j < i ==> (#[trigger] r@[j])@ == v@[j]@,
        decreases v.len() - i,
    {
        r.push(v[i].clone());
        i += 1;
    }
    assert(bookmark_views(r@) =~= bookmark_views(v@));
    r
}

/// One node of a browser's bookmark tree, with what collecting reads of it.
#[derive(Debug, PartialEq, Eq)]
pub struct BookmarkNode {
    /// The node's kind: `folder`, `url`, or anything else.
    pub node_type: String,
    pub name: Option<String>,
    pub url: Option<String>,
    pub guid: Option<String>,
    pub id: Option<String>,
    pub children: Option<Vec<BookmarkNode>>,
}

/// What a `BookmarkNode` holds, as plain values.
pub struct NodeView {
    pub node_type: Seq<char>,
    pub name: Option<Seq<char>>,
    pub url: Option<Seq<char>>,
    pub guid: Option<Seq<char>>,
    pub id: Option<Seq<char>>,
    pub children: Option<Seq<NodeView>>,
}

/// The view of a node and, through it, of the tree below it.
pub open spec fn node_view(node: BookmarkNode) -> NodeView
    decreases node,
{
    NodeView {
        node_type: node.node_type@,
        name: opt_view(node.name),
        url: opt_view(node.url),
        guid: opt_view(node.guid),
        id: opt_view(node.id),
        children: match node.children {
            Some(children) => Some(
                Seq::new(
                    children.len() as nat,
                    |i: int|
                        if 0 <= i < children.len() {
                            node_view(children[i])
                        } else {
                            arbitrary()
                        },
                ),
            ),
            None => None,
        },
    }
}

impl View for BookmarkNode {
    type V = NodeView;

    open spec fn view(&self) -> NodeView {
        node_view(*self)
    }
}

/// One top-level folder of a bookmark file, under its key.
#[derive(Debug, PartialEq, Eq)]
pub struct BookmarkRoot {
    pub key: String,
    pub node: BookmarkNode,
}

/// The views of a sequence of roots, as pairs of key and node.
pub open spec fn root_views(roots: Seq<BookmarkRoot>) -> Seq<(Seq<char>, NodeView)> {
    Seq::new(roots.len(), |i: int| (roots[i].key@, roots[i].node@))
}

/// What the `sha1` crate computes for a byte string: its SHA-1 digest.
pub uninterp spec fn sha1_digest(data: Seq<u8>) -> Seq<u8>;

/// Feeds the two byte strings, one after the other, to a `Sha1` hasher of the
/// `sha1` crate and takes the digest: that of the two joined.
#[verifier::external_body]
fn sha1_of_pair(first: &[u8], second: &[u8]) -> (r: Vec<u8>)
    ensures
        r@ == sha1_digest(first@ + second@),
{
    let mut hasher = Sha1::new();
    hasher.update(first);
    hasher.update(second);
    hasher.finalize().to_vec()
}

/// The lower-case hexadecimal digit for `d`, which is below sixteen.
pub open spec fn hex_lower(d: u8) -> char {
    if d < 10 {
        ((0x30 + d) as u8) as char
    } else {
        ((0x61 + d - 10) as u8) as char
    }
}

/// The bytes written as two lower-case hexadecimal digits each.
pub open spec fn hex_text(bytes: Seq<u8>) -> Seq<char>
    decreases bytes.len(),
{
    if bytes.len() == 0 {
        Seq::empty()
    } else {
        hex_text(bytes.drop_last()).push(hex_lower(bytes.last() / 16)).push(
            hex_lower(bytes.last() % 16),
        )
    }
}

/// One lower-case hexadecimal digit.
fn hex_digit(d: u8) -> (r: char)
    requires
        d < 16,
    ensures
        r == hex_lower(d),
{
    if d < 10 {
        (0x30u8 + d) as char
    } else {
        (0x61u8 + (d - 10)) as char
    }
}

/// Writes the bytes as lower-case hexadecimal digits.
pub fn encode(bytes: &[u8]) -> (r: String)
    ensures
        r@ == hex_text(bytes@),
{
    let mut r = String::new();
    let mut i: usize = 0;
    while i < bytes.len()
        invariant
            i <= bytes.len(),
            r@ == hex_text(bytes@.take(i as int)),
        decreases bytes.len() - i,
    {
        proof {
            assert(bytes@.take(i + 1).drop_last() =~= bytes@.take(i as int));
            assert(bytes@.take(i + 1).last() == bytes@[i as int]);
        }
        let b = bytes[i];
        r.push(hex_digit(b / 16));
        r.push(hex_digit(b % 16));
        i += 1;
    }
    proof {
        assert(bytes@.take(bytes.len() as int) =~= bytes@);
    }
    r
}

/// The identity of a bookmark: the profile label, a colon, and the node's
/// `guid`; without a `guid`, its `id`; without either, the hexadecimal SHA-1
/// digest of the profile label followed by the address.
pub open spec fn bookmark_identity(
    profile: Seq<char>,
    guid: Option<Seq<char>>,
    id: Option<Seq<char>>,
    url: Seq<char>,
) -> Seq<char> {
    profile + ":"@ + match guid {
        Some(guid) => guid,
        None => match id {
            Some(id) => id,
            None => hex_text(sha1_digest(encode_utf8(profile) + encode_utf8(url))),
        },
    }
}

/// The identity of the bookmark at `node` with the address `url`.
pub fn derive_bookmark_id(profile_label: &str, node: &BookmarkNode, url: &str) -> (r: String)
    ensures
        r@ == bookmark_identity(profile_label@, node@.guid, node@.id, url@),
{
    let prefix = concat_str(profile_label, ":");
    match &node.guid {
        Some(guid) => {
            return concat_str(prefix.as_str(), guid.as_str());
        },
        None => {},
    }
    match &node.id {
        Some(id) => {
            return concat_str(prefix.as_str(), id.as_str());
        },
        None => {},
    }
    let digest = sha1_of_pair(profile_label.as_bytes(), url.as_bytes());
    concat_str(prefix.as_str(), encode(digest.as_slice()).as_str())
}

/// The label shown for a top-level folder of a bookmark file, by its key.
pub open spec fn root_label(key: Seq<char>) -> Option<Seq<char>> {
    if key == "bookmark_bar"@ {
        Some("书签栏"@)
    } else if key == "other"@ {
        Some("其他书签"@)
    } else if key == "synced"@ {
        Some("已同步"@)
    } else {
        None
    }
}

/// The label shown for a top-level folder of a bookmark file.
pub fn root_display_label(key: &str) -> (r: Option<&'static str>)
    ensures
        match r {
            Some(label) => root_label(key@) == Some(label@),
            None => root_label(key@) is None,
        },
{
    if str_eq(key, "bookmark_bar") {
        Some("书签栏")
    } else if str_eq(key, "other") {
        Some("其他书签")
    } else if str_eq(key, "synced") {
        Some("已同步")
    } else {
        None
    }
}

/// The label shown for a browser profile: the default profile has a name of
/// its own, every other profile is shown by its directory name.
pub open spec fn profile_label(raw: Seq<char>) -> Seq<char> {
    if raw == "Default"@ {
        "默认"@
    } else {
        raw
    }
}

/// The label shown for a browser profile.
pub fn profile_display_label(raw: &str) -> (r: String)
    ensures
        r@ == profile_label(raw@),
{
    if str_eq(raw, "Default") {
        "默认".to_owned()
    } else {
        raw.to_owned()
    }
}

/// Whether the address is one that bookmarks are collected for.
pub open spec fn supported_url(url: Seq<char>) -> bool {
    "http://"@.is_prefix_of(url) || "https://"@.is_prefix_of(url)
}

/// Whether the address is one that bookmarks are collected for.
pub fn is_supported_url(url: &str) -> (r: bool)
    ensures
        r == supported_url(url@),
{
    str_starts_with(url, "http://") || str_starts_with(url, "https://")
}

/// The texts, each trimmed.
pub open spec fn trimmed_all(parts: Seq<Seq<char>>) -> Seq<Seq<char>> {
    Seq::new(parts.len(), |i: int| trim(parts[i]))
}

/// The keywords of a bookmark before the blank ones are dropped and the rest
/// is sorted: its title and address,
/// its folder path and the trimmed segments of that path, and the profile label.
pub open spec fn raw_keywords(
    title: Seq<char>,
    url: Seq<char>,
    folder: Option<Seq<char>>,
    profile: Seq<char>,
) -> Seq<Seq<char>> {
    let base = seq![title, url];
    let with_folder = match folder {
        Some(path) => base.push(path) + trimmed_all(split_on(path, '/')),
        None => base,
    };
    with_folder.push(profile)
}

/// The fragments that a bookmark's phonetic index is built from.
pub open spec fn phonetic_sources(
    title: Seq<char>,
    folder: Option<Seq<char>>,
    profile: Seq<char>,
) -> Seq<Seq<char>> {
    match folder {
        Some(path) => seq![title, path, profile],
        None => seq![title, profile],
    }
}

/// The folder path of a bookmark below the given folders.
pub open spec fn folder_path_of(stack: Seq<Seq<char>>) -> Option<Seq<char>> {
    if stack.len() == 0 {
        None
    } else {
        Some(joined_with(stack, " / "@))
    }
}

/// The bookmark that a `url` node stands for, below the folders of `stack`:
/// nothing where the node lacks a name or an address, where one of them is
/// blank, or where the address is not supported.
pub open spec fn bookmark_of(node: NodeView, profile: Seq<char>, stack: Seq<Seq<char>>) -> Option<
    BookmarkView,
> {
    match (node.name, node.url) {
        (Some(name), Some(url)) => {
            let title = trim(name);
            let address = trim(url);
            if title.len() == 0 || address.len() == 0 || !supported_url(address) {
                None
            } else {
                let folder = folder_path_of(stack);
                Some(
                    BookmarkView {
                        id: bookmark_identity(profile, node.guid, node.id, address),
                        title,
                        url: address,
                        folder_path: folder,
                        keywords: sorted_texts(
                            without_blank(raw_keywords(title, address, folder, profile)),
                        ),
                        pinyin_index: packed_index(phonetic_sources(title, folder, profile)),
                    },
                )
            }
        },
        _ => None,
    }
}

/// The folders that the children of a folder node lie below.
pub open spec fn stack_below(node: NodeView, stack: Seq<Seq<char>>) -> Seq<Seq<char>> {
    match node.name {
        Some(name) => if trim(name).len() > 0 {
            stack.push(trim(name))
        } else {
            stack
        },
        None => stack,
    }
}

/// The bookmarks of the tree at `node`, in document order: a `folder` gives
/// those of its children, below its own name; a `url` node gives its bookmark,
/// if it stands for one; any other node gives nothing.
pub open spec fn collected(node: NodeView, profile: Seq<char>, stack: Seq<Seq<char>>) -> Seq<
    BookmarkView,
>
    decreases node,
{
    if node.node_type == "folder"@ {
        match node.children {
            Some(children) => collected_all(
                children,
                profile,
                stack_below(node, stack),
                children.len(),
            ),
            None => Seq::empty(),
        }
    } else if node.node_type == "url"@ {
        match bookmark_of(node, profile, stack) {
            Some(bookmark) => seq![bookmark],
            None => Seq::empty(),
        }
    } else {
        Seq::empty()
    }
}

/// The bookmarks of the first `upto` of the trees.
pub open spec fn collected_all(
    nodes: Seq<NodeView>,
    profile: Seq<char>,
    stack: Seq<Seq<char>>,
    upto: nat,
) -> Seq<BookmarkView>
    decreases nodes, upto,
{
    if upto == 0 || upto > nodes.len() {
        Seq::empty()
    } else {
        collected_all(nodes, profile, stack, (upto - 1) as nat) + collected(
            nodes[upto - 1],
            profile,
            stack,
        )
    }
}

/// The bookmarks of one top-level folder: those of its children, or of the
/// node itself where it has none, below the profile and the folder's label.
pub open spec fn collected_root(key: Seq<char>, node: NodeView, profile: Seq<char>) -> Seq<
    BookmarkView,
> {
    let stack = match root_label(key) {
        Some(label) => seq![profile, label],
        None => seq![profile],
    };
    match node.children {
        Some(children) => collected_all(children, profile, stack, children.len()),
        None => collected(node, profile, stack),
    }
}

/// The bookmarks of the top-level folders, in order.
pub open spec fn collected_roots(roots: Seq<(Seq<char>, NodeView)>, profile: Seq<char>) -> Seq<
    BookmarkView,
>
    decreases roots.len(),
{
    if roots.len() == 0 {
        Seq::empty()
    } else {
        collected_roots(roots.drop_last(), profile) + collected_root(
            roots.last().0,
            roots.last().1,
            profile,
        )
    }
}

/// The bookmark that a `url` node stands for.
fn bookmark_at(node: &BookmarkNode, profile_label: &str, path_stack: &Vec<String>) -> (r: Option<
    BookmarkEntry,
>)
    ensures
        match r {
            Some(entry) => bookmark_of(node@, profile_label@, views(path_stack@)) == Some(entry@),
            None => bookmark_of(node@, profile_label@, views(path_stack@)) is None,
        },
{
    let name = match &node.name {
        Some(name) => name,
        None => {
            return None;
        },
    };
    let url = match &node.url {
        Some(url) => url,
        None => {
            return None;
        },
    };
    let title = trim_str(name.as_str());
    let address = trim_str(url.as_str());
    if title.as_str().is_empty() || address.as_str().is_empty() {
        return None;
    }
    if !is_supported_url(address.as_str()) {
        return None;
    }
    let folder_path = if path_stack.len() == 0 {
        None
    } else {
        Some(join_strings(path_stack, " / "))
    };
    let mut keywords: Vec<String> = Vec::new();
    keywords.push(title.clone());
    keywords.push(address.clone());
    let ghost base = views(keywords@);
    assert(base =~= seq![title@, address@]);
    match &folder_path {
        Some(folder) => {
            keywords.push(folder.clone());
            let segments = split_chars(&chars_of(folder.as_str()), '/');
            let ghost sv = views(segments@);
            let ghost start = views(keywords@);
            assert(start =~= base.push(folder@));
            let mut k: usize = 0;
            while k < segments.len()
                invariant
                    k <= segments.len(),
                    sv == views(segments@),
                    views(keywords@) == start + trimmed_all(sv).take(k as int),
                decreases segments.len() - k,
            {
                let ghost earlier = views(keywords@);
                let segment = trim_str(segments[k].as_str());
                assert(trimmed_all(sv)[k as int] == segment@);
                keywords.push(segment);
                assert(views(keywords@) =~= earlier.push(trimmed_all(sv)[k as int]));
                assert(views(keywords@) =~= start + trimmed_all(sv).take(k + 1));
                k += 1;
            }
            assert(trimmed_all(sv).take(segments.len() as int) =~= trimmed_all(sv));
        },
        None => {},
    }
    let ghost before_profile = views(keywords@);
    keywords.push(profile_label.to_owned());
    assert(views(keywords@) =~= before_profile.push(profile_label@));
    assert(views(keywords@) == raw_keywords(
        title@,
        address@,
        opt_view(folder_path),
        profile_label@,
    ));
    let keywords = sorted_strings(retain_non_blank(keywords));
    let pinyin_index = match &folder_path {
        Some(folder) => {
            let sources = [title.as_str(), folder.as_str(), profile_label];
            assert(text_views(sources@) =~= seq![title@, folder@, profile_label@]);
            build_pinyin_index(sources.as_slice())
        },
        None => {
            let sources = [title.as_str(), profile_label];
            assert(text_views(sources@) =~= seq![title@, profile_label@]);
            build_pinyin_index(sources.as_slice())
        },
    };
    let id = derive_bookmark_id(profile_label, node, address.as_str());
    Some(BookmarkEntry { id, title, url: address, folder_path, keywords, pinyin_index })
}

/// Appends the bookmarks of the tree at `node` to `acc`. `path_stack` names
/// the folders above the node and is the same afterwards.
pub fn collect_node(
    node: &BookmarkNode,
    profile_label: &str,
    path_stack: &mut Vec<String>,
    acc: &mut Vec<BookmarkEntry>,
)
    ensures
        views(final(path_stack)@) == views(old(path_stack)@),
        bookmark_views(final(acc)@) == bookmark_views(old(acc)@) + collected(
            node@,
            profile_label@,
            views(old(path_stack)@),
        ),
    decreases node,
{
    let ghost start = bookmark_views(acc@);
    let ghost stack = views(path_stack@);
    if str_eq(node.node_type.as_str(), "folder") {
        let mut pushed = false;
        match &node.name {
            Some(name) => {
                let stripped = trim_str(name.as_str());
                if !stripped.as_str().is_empty() {
                    path_stack.push(stripped);
                    pushed = true;
                    assert(views(path_stack@) =~= stack.push(trim(name@)));
                }
            },
            None => {},
        }
        let ghost inner = views(path_stack@);
        assert(inner == stack_below(node@, stack));
        match &node.children {
            Some(children) => {
                let ghost cv = node@.children.unwrap();
                let mut i: usize = 0;
                assert(bookmark_views(acc@) =~= start + collected_all(
                    cv,
                    profile_label@,
                    inner,
                    0,
                ));
                while i < children.len()
                    invariant
                        i <= children.len(),
                        node.children == Some(*children),
                        cv == node@.children.unwrap(),
                        cv.len() == children.len(),
                        views(path_stack@) == inner,
                        bookmark_views(acc@) == start + collected_all(
                            cv,
                            profile_label@,
                            inner,
                            i as nat,
                        ),
                    decreases children.len() - i,
                {
                    assert(cv[i as int] == children@[i as int]@);
                    let ghost earlier = bookmark_views(acc@);
                    collect_node(&children[i], profile_label, path_stack, acc);
                    assert(bookmark_views(acc@) =~= start + collected_all(
                        cv,
                        profile_label@,
                        inner,
                        (i + 1) as nat,
                    ));
                    i += 1;
                }
            },
            None => {
                assert(bookmark_views(acc@) =~= start + Seq::<BookmarkView>::empty());
            },
        }
        if pushed {
            let ghost before_pop = views(path_stack@);
            path_stack.pop();
            assert(views(path_stack@) =~= before_pop.drop_last());
            assert(inner.drop_last() =~= stack);
        }
    } else if str_eq(node.node_type.as_str(), "url") {
        match bookmark_at(node, profile_label, path_stack) {
            Some(entry) => {
                acc.push(entry);
                assert(bookmark_views(acc@) =~= start + seq![entry@]);
            },
            None => {
                assert(bookmark_views(acc@) =~= start + Seq::<BookmarkView>::empty());
            },
        }
    } else {
        assert(bookmark_views(acc@) =~= start + Seq::<BookmarkView>::empty());
    }
}

/// Appends the bookmarks of a bookmark file's top-level folders to `acc`.
pub fn collect_entries_from_file(
    roots: &Vec<BookmarkRoot>,
    profile_label: &str,
    acc: &mut Vec<BookmarkEntry>,
)
    ensures
        bookmark_views(final(acc)@) == bookmark_views(old(acc)@) + collected_roots(
            root_views(roots@),
            profile_label@,
        ),
{
    let ghost start = bookmark_views(acc@);
    let ghost rv = root_views(roots@);
    let mut r: usize = 0;
    assert(bookmark_views(acc@) =~= start + collected_roots(rv.take(0), profile_label@));
    while r < roots.len()
        invariant
            r <= roots.len(),
            rv == root_views(roots@),
            bookmark_views(acc@) == start + collected_roots(rv.take(r as int), profile_label@),
        decreases roots.len() - r,
    {
        let root = &roots[r];
        proof {
            assert(rv.take(r + 1).drop_last() =~= rv.take(r as int));
            assert(rv.take(r + 1).last() == (root.key@, root.node@));
        }
        let ghost before_root = bookmark_views(acc@);
        let mut path_stack: Vec<String> = Vec::new();
        path_stack.push(profile_label.to_owned());
        match root_display_label(root.key.as_str()) {
            Some(label) => {
                path_stack.push(label.to_owned());
            },
            None => {},
        }
        let ghost stack = views(path_stack@);
        assert(stack =~= match root_label(root.key@) {
            Some(label) => seq![profile_label@, label],
            None => seq![profile_label@],
        });
        match &root.node.children {
            Some(children) => {
                let ghost cv = root.node@.children.unwrap();
                let mut i: usize = 0;
                assert(bookmark_views(acc@) =~= before_root + collected_all(
                    cv,
                    profile_label@,
                    stack,
                    0,
                ));
                while i < children.len()
                    invariant
                        i <= children.len(),
                        root.node.children == Some(*children),
                        cv == root.node@.children.unwrap(),
                        cv.len() == children.len(),
                        views(path_stack@) == stack,
                        bookmark_views(acc@) == before_root + collected_all(
                            cv,
                            profile_label@,
                            stack,
                            i as nat,
                        ),
                    decreases children.len() - i,
                {
                    assert(cv[i as int] == children@[i as int]@);
                    collect_node(&children[i], profile_label, &mut path_stack, acc);
                    assert(bookmark_views(acc@) =~= before_root + collected_all(
                        cv,
                        profile_label@,
                        stack,
                        (i + 1) as nat,
                    ));
                    i += 1;
                }
            },
            None => {
                collect_node(&root.node, profile_label, &mut path_stack, acc);
            },
        }
        assert(bookmark_views(acc@) =~= start + collected_roots(rv.take(r + 1), profile_label@));
        r += 1;
    }
    proof {
        assert(rv.take(roots.len() as int) =~= rv);
    }
}

} // verus!
