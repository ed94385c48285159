//! Application entries and search results, with their mathematical views.

use crate::text::{
    all_within_text_limit, opt_view, optional_within_text_limit, texts_in_bounds, views,
    within_text_limit, MAX_TEXT_CHARS,
};
use vstd::prelude::*;

verus! {

/// How an application is started.
#[derive(Clone, Copy, Debug, PartialEq, Eq, Hash, Structural)]
pub enum AppType {
    /// A native binary, started through the shell.
    Win32,
    /// A packaged application, started by its application id.
    Uwp,
}

/// One installed application of the index.
#[derive(Debug, PartialEq, Eq)]
pub struct ApplicationInfo {
    pub id: String,
    pub name: String,
    pub path: String,
    pub source_path: Option<String>,
    pub app_type: AppType,
    pub description: Option<String>,
    pub keywords: Vec<String>,
    pub pinyin_index: Option<String>,
    pub working_directory: Option<String>,
    pub arguments: Option<String>,
}

/// What an `ApplicationInfo` holds, as plain texts.
pub struct ApplicationView {
    pub id: Seq<char>,
    pub name: Seq<char>,
    pub path: Seq<char>,
    pub source_path: Option<Seq<char>>,
    pub app_type: AppType,
    pub description: Option<Seq<char>>,
    pub keywords: Seq<Seq<char>>,
    pub pinyin_index: Option<Seq<char>>,
    pub working_directory: Option<Seq<char>>,
    pub arguments: Option<Seq<char>>,
}

impl View for ApplicationInfo {
    type V = ApplicationView;

    open spec fn view(&self) -> ApplicationView {
        ApplicationView {
            id: self.id@,
            name: self.name@,
            path: self.path@,
            source_path: opt_view(self.source_path),
            app_type: self.app_type,
            description: opt_view(self.description),
            keywords: views(self.keywords@),
            pinyin_index: opt_view(self.pinyin_index),
            working_directory: opt_view(self.working_directory),
            arguments: opt_view(self.arguments),
        }
    }
}

impl ApplicationView {
    /// Whether every text that ranking reads from this entry is short enough to score.
    pub open spec fn searchable(self) -> bool {
        &&& self.name.len() <= MAX_TEXT_CHARS
        &&& texts_in_bounds(self.keywords)
        &&& self.pinyin_index matches Some(p) ==> p.len() <= MAX_TEXT_CHARS
    }
}

/// The views of a sequence of entries.
pub open spec fn app_views(v: Seq<ApplicationInfo>) -> Seq<ApplicationView> {
    Seq::new(v.len(), |i: int| v[i]@)
}

/// One ranked result of a query.
#[derive(Debug, PartialEq, Eq)]
pub struct SearchResult {
    pub id: String,
    pub title: String,
    pub subtitle: String,
    pub score: i64,
    pub action_id: String,
}

/// What a `SearchResult` holds, as plain texts.
pub struct ResultView {
    pub id: Seq<char>,
    pub title: Seq<char>,
    pub subtitle: Seq<char>,
    pub score: int,
    pub action_id: Seq<char>,
}

impl View for SearchResult {
    type V = ResultView;

    open spec fn view(&self) -> ResultView {
        ResultView {
            id: self.id@,
            title: self.title@,
            subtitle: self.subtitle@,
            score: self.score as int,
            action_id: self.action_id@,
        }
    }
}

/// The views of a sequence of results.
pub open spec fn result_views(v: Seq<SearchResult>) -> Seq<ResultView> {
    Seq::new(v.len(), |i: int| v[i]@)
}

/// A copy of an optional string.
pub fn clone_opt(o: &Option<String>) -> (r: Option<String>)
    ensures
        opt_view(r) == opt_view(*o),
{
    match o {
        Some(s) => Some(s.clone()),
        None => None,
    }
}

/// A copy of a list of strings.
pub fn clone_strings(v: &Vec<String>) -> (r: Vec<String>)
    ensures
        views(r@) == views(v@),
{
    let mut r: Vec<String> = Vec::new();
    let mut i: usize = 0;
    while i < v.len()
        invariant
            i <= v.len(),
            r.len() == i,
            forall|j: int| 0 <= j < i ==> (#[trigger] r@[j])@ == v@[j]@,
        decreases v.len() - i,
    {
        r.push(v[i].clone());
        i += 1;
    }
    assert(views(r@) =~= views(v@));
    r
}

/// Whether two optional strings hold the same text, or are both absent.
pub fn opt_eq(a: &Option<String>, b: &Option<String>) -> (r: bool)
    ensures
        r == (opt_view(*a) == opt_view(*b)),
{
    match (a, b) {
        (Some(x), Some(y)) => *x == *y,
        (None, None) => true,
        _ => false,
    }
}

/// Whether two lists of strings hold the same texts in the same order.
pub fn strings_eq(a: &Vec<String>, b: &Vec<String>) -> (r: bool)
    ensures
        r == (views(a@) == views(b@)),
{
    if a.len() != b.len() {
        return false;
    }
    let mut i: usize = 0;
    while i < a.len()
        invariant
            i <= a.len(),
            a.len() == b.len(),
            views(a@).take(i as int) == views(b@).take(i as int),
        decreases a.len() - i,
    {
        if a[i] != b[i] {
            assert(views(a@)[i as int] != views(b@)[i as int]);
            return false;
        }
        assert(views(a@).take(i + 1) =~= views(a@).take(i as int).push(views(a@)[i as int]));
        assert(views(b@).take(i + 1) =~= views(b@).take(i as int).push(views(b@)[i as int]));
        i += 1;
    }
    assert(views(a@).take(a.len() as int) =~= views(a@));
    assert(views(b@).take(b.len() as int) =~= views(b@));
    true
}

impl Clone for ApplicationInfo {
    fn clone(&self) -> (r: Self)
        ensures
            r@ == self@,
    {
        ApplicationInfo {
            id: self.id.clone(),
            name: self.name.clone(),
            path: self.path.clone(),
            source_path: clone_opt(&self.source_path),
            app_type: self.app_type,
            description: clone_opt(&self.description),
            keywords: clone_strings(&self.keywords),
            pinyin_index: clone_opt(&self.pinyin_index),
            working_directory: clone_opt(&self.working_directory),
            arguments: clone_opt(&self.arguments),
        }
    }
}

impl ApplicationInfo {
    /// Whether every text that ranking reads from this entry is short enough
    /// to score.
    pub fn is_searchable(&self) -> (r: bool)
        ensures
            r == self@.searchable(),
    {
        within_text_limit(self.name.as_str()) && all_within_text_limit(&self.keywords)
            && optional_within_text_limit(&self.pinyin_index)
    }

    /// Whether the two entries hold the same data in every field.
    pub fn same_as(&self, other: &ApplicationInfo) -> (r: bool)
        ensures
            r == (self@ == other@),
    {
        self.id == other.id && self.name == other.name && self.path == other.path && opt_eq(
            &self.source_path,
            &other.source_path,
        ) && self.app_type == other.app_type && opt_eq(&self.description, &other.description)
            && strings_eq(&self.keywords, &other.keywords) && opt_eq(
            &self.pinyin_index,
            &other.pinyin_index,
        ) && opt_eq(&self.working_directory, &other.working_directory) && opt_eq(
            &self.arguments,
            &other.arguments,
        )
    }
}

impl Clone for SearchResult {
    fn clone(&self) -> (r: Self)
        ensures
            r@ == self@,
    {
        SearchResult {
            id: self.id.clone(),
            title: self.title.clone(),
            subtitle: self.subtitle.clone(),
            score: self.score,
            action_id: self.action_id.clone(),
        }
    }
}

/// A copy of a list of results.
pub fn clone_results(v: &Vec<SearchResult>) -> (r: Vec<SearchResult>)
    ensures
        result_views(r@) == result_views(v@),
{
    let mut r: Vec<SearchResult> = Vec::new();
    let mut i: usize = 0;
    while i < v.len()
        invariant
            i <= v.len(),
            r.len() == i,
            forall|j: int| 0 <= j < i ==> (#[trigger] r@[j])@ == v@[j]@,
        decreases v.len() - i,
    {
        r.push(v[i].clone());
        i += 1;
    }
    assert(result_views(r@) =~= result_views(v@));
    r
}

/// A copy of a list of application entries.
pub fn clone_apps(v: &Vec<ApplicationInfo>) -> (r: Vec<ApplicationInfo>)
    ensures
        app_views(r@) == app_views(v@),
{
    let mut r: Vec<ApplicationInfo> = Vec::new();
    let mut i: usize = 0;
    while i < v.len()
        invariant
            i <= v.len(),
            r.len() == i,
            forall|j: int| 0 <= j < i ==> (#[trigger] r@[j])@ == v@[j]@,
        decreases v.len() - i,
    {
        r.push(v[i].clone());
        i += 1;
    }
    assert(app_views(r@) =~= app_views(v@));
    r
}

/// Whether two indexes hold the same entries in the same order.
pub fn same_apps(a: &Vec<ApplicationInfo>, b: &Vec<ApplicationInfo>) -> (r: bool)
    ensures
        r == (app_views(a@) == app_views(b@)),
{
    if a.len() != b.len() {
        return false;
    }
    let mut i: usize = 0;
    while i < a.len()
        invariant
            i <= a.len(),
            a.len() == b.len(),
            app_views(a@).take(i as int) == app_views(b@).take(i as int),
        decreases a.len() - i,
    {
        if !a[i].same_as(&b[i]) {
            assert(app_views(a@)[i as int] != app_views(b@)[i as int]);
            return false;
        }
        assert(app_views(a@).take(i + 1) =~= app_views(a@).take(i as int).push(
            app_views(a@)[i as int],
        ));
        assert(app_views(b@).take(i + 1) =~= app_views(b@).take(i as int).push(
            app_views(b@)[i as int],
        ));
        i += 1;
    }
    assert(app_views(a@).take(a.len() as int) =~= app_views(a@));
    assert(app_views(b@).take(b.len() as int) =~= app_views(b@));
    true
}

} // verus!
