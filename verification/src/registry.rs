//! The registry: the catalog of environments with their labels, their
//! links to project directories and the configuration.
//!
//! This module holds the registry as plain data and states the rules of
//! every operation on it. Keeping the data in a file is the caller's
//! part: it loads a `Registry`, applies an operation, and stores what
//! changed.

use crate::order::{
    key_views, sort_by_key, sort_texts, sorted_order, sorted_texts, text_keys, KeyView, SortKey,
};
use crate::text::{
    chars_of, copy, decimal, decimal_of, has_prefix, lowercase, opt_str_view, parse_signed,
    parse_signed_of, same, slice, split, split_of, starts_with, string_of, strip_end,
    strip_end_of, views, CharClass,
};
use vstd::prelude::*;

verus! {

/// How a link between a project directory and an environment came about.
#[derive(Debug, Clone, Copy, PartialEq, Eq, Structural)]
pub enum LinkType {
    /// The user made the link.
    User,
    /// The link was made when the environment was activated in the
    /// directory.
    Activated,
}

/// A registered environment.
#[derive(Debug, Clone)]
pub struct Environment {
    pub id: u64,
    pub name: String,
    /// The absolute path of the environment.
    pub path: String,
    pub python_version: String,
    /// When the environment was last registered, in seconds since the
    /// epoch.
    pub updated_at: i64,
    pub is_favorite: bool,
}

/// A label of an environment. The text is stored in lowercase.
#[derive(Debug, Clone)]
pub struct Label {
    pub env_id: u64,
    pub label: String,
}

/// A link between a project directory and an environment.
#[derive(Debug, Clone)]
pub struct ProjectLink {
    pub project_path: String,
    pub env_id: u64,
    pub tag: Option<String>,
    pub is_default: bool,
    pub link_type: LinkType,
    pub activation_count: u64,
    /// When the environment was last activated in the directory, in
    /// seconds since the epoch.
    pub last_activated_at: Option<i64>,
}

/// A note on a project directory or on an environment.
#[derive(Debug, Clone)]
pub struct Note {
    pub uuid: String,
    pub project_path: String,
    /// The environment that the note is about, while it is registered.
    pub env_id: Option<u64>,
    pub message: String,
    pub tag: Option<String>,
    /// When the note was made, in seconds since the epoch.
    pub created_at: i64,
}

/// A configuration entry.
#[derive(Debug, Clone)]
pub struct ConfigEntry {
    pub key: String,
    pub value: String,
}

/// An environment, as characters.
pub struct EnvView {
    pub id: u64,
    pub name: Seq<char>,
    pub path: Seq<char>,
    pub python_version: Seq<char>,
    pub updated_at: i64,
    pub is_favorite: bool,
}

/// A label, as characters.
pub struct LabelView {
    pub env_id: u64,
    pub label: Seq<char>,
}

/// A link, as characters.
pub struct LinkView {
    pub project_path: Seq<char>,
    pub env_id: u64,
    pub tag: Option<Seq<char>>,
    pub is_default: bool,
    pub link_type: LinkType,
    pub activation_count: u64,
    pub last_activated_at: Option<i64>,
}

/// A note, as characters.
pub struct NoteView {
    pub uuid: Seq<char>,
    pub project_path: Seq<char>,
    pub env_id: Option<u64>,
    pub message: Seq<char>,
    pub tag: Option<Seq<char>>,
    pub created_at: i64,
}

/// A configuration entry, as characters.
pub struct ConfigView {
    pub key: Seq<char>,
    pub value: Seq<char>,
}

impl View for Environment {
    type V = EnvView;

    open spec fn view(&self) -> EnvView {
        EnvView {
            id: self.id,
            name: self.name@,
            path: self.path@,
            python_version: self.python_version@,
            updated_at: self.updated_at,
            is_favorite: self.is_favorite,
        }
    }
}

impl View for Label {
    type V = LabelView;

    open spec fn view(&self) -> LabelView {
        LabelView { env_id: self.env_id, label: self.label@ }
    }
}

impl View for ProjectLink {
    type V = LinkView;

    open spec fn view(&self) -> LinkView {
        LinkView {
            project_path: self.project_path@,
            env_id: self.env_id,
            tag: opt_str_view(self.tag),
            is_default: self.is_default,
            link_type: self.link_type,
            activation_count: self.activation_count,
            last_activated_at: self.last_activated_at,
        }
    }
}

impl View for Note {
    type V = NoteView;

    open spec fn view(&self) -> NoteView {
        NoteView {
            uuid: self.uuid@,
            project_path: self.project_path@,
            env_id: self.env_id,
            message: self.message@,
            tag: opt_str_view(self.tag),
            created_at: self.created_at,
        }
    }
}

impl View for ConfigEntry {
    type V = ConfigView;

    open spec fn view(&self) -> ConfigView {
        ConfigView { key: self.key@, value: self.value@ }
    }
}

/// The views of a sequence of environments.
pub open spec fn env_views(v: Seq<Environment>) -> Seq<EnvView> {
    Seq::new(v.len(), |i: int| v[i]@)
}

/// The views of a sequence of labels.
pub open spec fn label_views(v: Seq<Label>) -> Seq<LabelView> {
    Seq::new(v.len(), |i: int| v[i]@)
}

/// The views of a sequence of links.
pub open spec fn link_views(v: Seq<ProjectLink>) -> Seq<LinkView> {
    Seq::new(v.len(), |i: int| v[i]@)
}

/// The views of a sequence of notes.
pub open spec fn note_views(v: Seq<Note>) -> Seq<NoteView> {
    Seq::new(v.len(), |i: int| v[i]@)
}

/// The views of a sequence of configuration entries.
pub open spec fn config_views(v: Seq<ConfigEntry>) -> Seq<ConfigView> {
    Seq::new(v.len(), |i: int| v[i]@)
}

/// The keys of configuration entries.
pub open spec fn config_keys(cs: Seq<ConfigView>) -> Seq<Seq<char>> {
    Seq::new(cs.len(), |i: int| cs[i].key)
}

/// The configuration entries in the ascending order of their keys.
pub open spec fn config_by_key(cs: Seq<ConfigView>) -> Seq<ConfigView> {
    let order = sorted_order(text_keys(config_keys(cs)), cs.len() as int, false);
    Seq::new(order.len(), |i: int| cs[order[i] as int])
}

/// Why an operation on the registry is refused.
#[derive(Debug, Clone, Copy, PartialEq, Eq, Structural)]
pub enum RegistryError {
    /// The environment is not registered.
    NotFound,
    /// Another environment is registered at the path.
    PathTaken,
    /// No identifier is left for a new environment.
    Full,
    /// A note with the identifier is there already.
    UuidTaken,
}

/// The content of a registry.
pub struct RegistryView {
    pub envs: Seq<EnvView>,
    pub labels: Seq<LabelView>,
    pub links: Seq<LinkView>,
    pub notes: Seq<NoteView>,
    pub config: Seq<ConfigView>,
    pub next_id: u64,
}

/// The index of the environment with the name `name` among the first
/// `n`, or -1.
pub open spec fn env_by_name(envs: Seq<EnvView>, n: int, name: Seq<char>) -> int
    decreases n,
{
    if n <= 0 {
        -1
    } else if envs[n - 1].name == name {
        n - 1
    } else {
        env_by_name(envs, n - 1, name)
    }
}

/// The index of the environment with the path `path` among the first
/// `n`, or -1.
pub open spec fn env_by_path(envs: Seq<EnvView>, n: int, path: Seq<char>) -> int
    decreases n,
{
    if n <= 0 {
        -1
    } else if envs[n - 1].path == path {
        n - 1
    } else {
        env_by_path(envs, n - 1, path)
    }
}

/// The index of the environment with the identifier `id` among the
/// first `n`, or -1.
pub open spec fn env_by_id(envs: Seq<EnvView>, n: int, id: u64) -> int
    decreases n,
{
    if n <= 0 {
        -1
    } else if envs[n - 1].id == id {
        n - 1
    } else {
        env_by_id(envs, n - 1, id)
    }
}

/// The index of the link between `path` and the environment `env_id`
/// among the first `n`, or -1.
pub open spec fn link_index(links: Seq<LinkView>, n: int, path: Seq<char>, env_id: u64) -> int
    decreases n,
{
    if n <= 0 {
        -1
    } else if links[n - 1].project_path == path && links[n - 1].env_id == env_id {
        n - 1
    } else {
        link_index(links, n - 1, path, env_id)
    }
}

/// The index of the label `label` of the environment `env_id` among the
/// first `n`, or -1.
pub open spec fn label_index(labels: Seq<LabelView>, n: int, env_id: u64, label: Seq<char>) -> int
    decreases n,
{
    if n <= 0 {
        -1
    } else if labels[n - 1].env_id == env_id && labels[n - 1].label == label {
        n - 1
    } else {
        label_index(labels, n - 1, env_id, label)
    }
}

/// The index of the configuration entry with the key `key` among the
/// first `n`, or -1.
pub open spec fn config_index(config: Seq<ConfigView>, n: int, key: Seq<char>) -> int
    decreases n,
{
    if n <= 0 {
        -1
    } else if config[n - 1].key == key {
        n - 1
    } else {
        config_index(config, n - 1, key)
    }
}

/// The search by name finds an environment with the name, or there is
/// none among those searched.
pub proof fn lemma_env_by_name(envs: Seq<EnvView>, n: int, name: Seq<char>)
    requires
        0 <= n <= envs.len(),
    ensures
        -1 <= env_by_name(envs, n, name) < n,
        env_by_name(envs, n, name) >= 0 ==> envs[env_by_name(envs, n, name)].name == name,
        env_by_name(envs, n, name) < 0 ==> forall|i: int|
            0 <= i < n ==> (#[trigger] envs[i]).name != name,
    decreases n,
{
    if n > 0 && envs[n - 1].name != name {
        lemma_env_by_name(envs, n - 1, name);
    }
}

/// The search by path finds an environment at the path, or there is
/// none among those searched.
pub proof fn lemma_env_by_path(envs: Seq<EnvView>, n: int, path: Seq<char>)
    requires
        0 <= n <= envs.len(),
    ensures
        -1 <= env_by_path(envs, n, path) < n,
        env_by_path(envs, n, path) >= 0 ==> envs[env_by_path(envs, n, path)].path == path,
        env_by_path(envs, n, path) < 0 ==> forall|i: int|
            0 <= i < n ==> (#[trigger] envs[i]).path != path,
    decreases n,
{
    if n > 0 && envs[n - 1].path != path {
        lemma_env_by_path(envs, n - 1, path);
    }
}

/// The search by identifier finds an environment with the identifier,
/// or there is none among those searched.
pub proof fn lemma_env_by_id(envs: Seq<EnvView>, n: int, id: u64)
    requires
        0 <= n <= envs.len(),
    ensures
        -1 <= env_by_id(envs, n, id) < n,
        env_by_id(envs, n, id) >= 0 ==> envs[env_by_id(envs, n, id)].id == id,
        env_by_id(envs, n, id) < 0 ==> forall|i: int| 0 <= i < n ==> (#[trigger] envs[i]).id != id,
    decreases n,
{
    if n > 0 && envs[n - 1].id != id {
        lemma_env_by_id(envs, n - 1, id);
    }
}

/// The search for a link finds a link of the directory and the
/// environment, or there is none among those searched.
pub proof fn lemma_link_index(links: Seq<LinkView>, n: int, path: Seq<char>, env_id: u64)
    requires
        0 <= n <= links.len(),
    ensures
        -1 <= link_index(links, n, path, env_id) < n,
        link_index(links, n, path, env_id) >= 0 ==> links[link_index(
            links,
            n,
            path,
            env_id,
        )].project_path == path && links[link_index(links, n, path, env_id)].env_id == env_id,
        link_index(links, n, path, env_id) < 0 ==> forall|i: int|
            0 <= i < n ==> !((#[trigger] links[i]).project_path == path && links[i].env_id
                == env_id),
    decreases n,
{
    if n > 0 && !(links[n - 1].project_path == path && links[n - 1].env_id == env_id) {
        lemma_link_index(links, n - 1, path, env_id);
    }
}

/// The search for a label finds the label of the environment, or
/// there is none among those searched.
pub proof fn lemma_label_index(labels: Seq<LabelView>, n: int, env_id: u64, label: Seq<char>)
    requires
        0 <= n <= labels.len(),
    ensures
        -1 <= label_index(labels, n, env_id, label) < n,
        label_index(labels, n, env_id, label) >= 0 ==> labels[label_index(
            labels,
            n,
            env_id,
            label,
        )].env_id == env_id && labels[label_index(labels, n, env_id, label)].label == label,
        label_index(labels, n, env_id, label) < 0 ==> forall|i: int|
            0 <= i < n ==> !((#[trigger] labels[i]).env_id == env_id && labels[i].label == label),
    decreases n,
{
    if n > 0 && !(labels[n - 1].env_id == env_id && labels[n - 1].label == label) {
        lemma_label_index(labels, n - 1, env_id, label);
    }
}

impl RegistryView {
    /// Whether an environment with the identifier `id` is registered.
    pub open spec fn has_env(self, id: u64) -> bool {
        exists|i: int| 0 <= i < self.envs.len() && (#[trigger] self.envs[i]).id == id
    }

    /// The identifier of the environment with the name `name`.
    pub open spec fn id_of(self, name: Seq<char>) -> Option<u64> {
        let i = env_by_name(self.envs, self.envs.len() as int, name);
        if i >= 0 {
            Some(self.envs[i].id)
        } else {
            None
        }
    }

    /// Whether the content keeps the rules of the registry: names, paths
    /// and identifiers of environments are unique; a label and a link
    /// belong to a registered environment; there is one label for an
    /// environment and a text, one link for a directory and an
    /// environment, and at most one default link for a directory; a
    /// configuration key occurs once.
    pub open spec fn wf(self) -> bool {
        &&& forall|i: int, j: int|
            0 <= i < j < self.envs.len() ==> (#[trigger] self.envs[i]).id != (
            #[trigger] self.envs[j]).id && self.envs[i].name != self.envs[j].name
                && self.envs[i].path != self.envs[j].path
        &&& forall|i: int| 0 <= i < self.envs.len() ==> (#[trigger] self.envs[i]).id < self.next_id
        &&& forall|i: int|
            0 <= i < self.labels.len() ==> self.has_env((#[trigger] self.labels[i]).env_id)
        &&& forall|i: int, j: int|
            0 <= i < j < self.labels.len() ==> !((#[trigger] self.labels[i]).env_id == (
            #[trigger] self.labels[j]).env_id && self.labels[i].label == self.labels[j].label)
        &&& forall|i: int|
            0 <= i < self.links.len() ==> self.has_env((#[trigger] self.links[i]).env_id)
        &&& forall|i: int, j: int|
            0 <= i < j < self.links.len() ==> !((#[trigger] self.links[i]).project_path == (
            #[trigger] self.links[j]).project_path && self.links[i].env_id
                == self.links[j].env_id)
        &&& forall|i: int, j: int|
            0 <= i < j < self.links.len() ==> !((#[trigger] self.links[i]).project_path == (
            #[trigger] self.links[j]).project_path && self.links[i].is_default
                && self.links[j].is_default)
        &&& forall|i: int, j: int|
            0 <= i < j < self.config.len() ==> (#[trigger] self.config[i]).key != (
            #[trigger] self.config[j]).key
        &&& notes_ok(self.envs, self.notes)
    }
}

/// Whether the notes keep the rules of the registry: the identifier of
/// a note occurs once, and a note is about a registered environment or
/// about none.
pub open spec fn notes_ok(envs: Seq<EnvView>, notes: Seq<NoteView>) -> bool {
    &&& forall|i: int, j: int|
        0 <= i < j < notes.len() ==> (#[trigger] notes[i]).uuid != (#[trigger] notes[j]).uuid
    &&& forall|i: int|
        0 <= i < notes.len() && (#[trigger] notes[i]).env_id.is_some() ==> env_by_id(
            envs,
            envs.len() as int,
            notes[i].env_id.unwrap(),
        ) >= 0
}

/// The registry.
pub struct Registry {
    envs: Vec<Environment>,
    labels: Vec<Label>,
    links: Vec<ProjectLink>,
    notes: Vec<Note>,
    config: Vec<ConfigEntry>,
    next_id: u64,
}

impl View for Registry {
    type V = RegistryView;

    closed spec fn view(&self) -> RegistryView {
        RegistryView {
            envs: env_views(self.envs@),
            labels: label_views(self.labels@),
            links: link_views(self.links@),
            notes: note_views(self.notes@),
            config: config_views(self.config@),
            next_id: self.next_id,
        }
    }
}

fn str_eq(a: &str, b: &str) -> (r: bool)
    ensures
        r == (a@ == b@),
{
    same(&chars_of(a), &chars_of(b))
}

fn copy_str(a: &str) -> (r: String)
    ensures
        r@ == a@,
{
    string_of(&chars_of(a))
}

impl Registry {
    /// An empty registry.
    pub fn new() -> (r: Registry)
        ensures
            r@.wf(),
            r@.envs.len() == 0,
            r@.labels.len() == 0,
            r@.links.len() == 0,
            r@.notes.len() == 0,
            r@.config.len() == 0,
            r@.next_id == 1,
    {
        Registry {
            envs: Vec::new(),
            labels: Vec::new(),
            links: Vec::new(),
            notes: Vec::new(),
            config: Vec::new(),
            next_id: 1,
        }
    }

    fn find_env_by_name(&self, name: &str) -> (r: Option<usize>)
        ensures
            match r {
                Some(i) => i == env_by_name(self@.envs, self@.envs.len() as int, name@) && i
                    < self.envs.len(),
                None => env_by_name(self@.envs, self@.envs.len() as int, name@) < 0,
            },
    {
        let mut n: usize = self.envs.len();
        let ghost es = self@.envs;
        while n > 0
            invariant
                n <= self.envs.len(),
                es == env_views(self.envs@),
                env_by_name(es, es.len() as int, name@) == env_by_name(es, n as int, name@),
            decreases n,
        {
            assert(es[n - 1] == self.envs@[n - 1]@);
            if str_eq(self.envs[n - 1].name.as_str(), name) {
                return Some(n - 1);
            }
            n -= 1;
        }
        None
    }

    fn find_env_by_path(&self, path: &str) -> (r: Option<usize>)
        ensures
            match r {
                Some(i) => i == env_by_path(self@.envs, self@.envs.len() as int, path@) && i
                    < self.envs.len(),
                None => env_by_path(self@.envs, self@.envs.len() as int, path@) < 0,
            },
    {
        let mut n: usize = self.envs.len();
        let ghost es = self@.envs;
        while n > 0
            invariant
                n <= self.envs.len(),
                es == env_views(self.envs@),
                env_by_path(es, es.len() as int, path@) == env_by_path(es, n as int, path@),
            decreases n,
        {
            assert(es[n - 1] == self.envs@[n - 1]@);
            if str_eq(self.envs[n - 1].path.as_str(), path) {
                return Some(n - 1);
            }
            n -= 1;
        }
        None
    }

    fn find_env_by_id(&self, id: u64) -> (r: Option<usize>)
        ensures
            match r {
                Some(i) => i == env_by_id(self@.envs, self@.envs.len() as int, id) && i
                    < self.envs.len(),
                None => env_by_id(self@.envs, self@.envs.len() as int, id) < 0,
            },
    {
        let mut n: usize = self.envs.len();
        let ghost es = self@.envs;
        while n > 0
            invariant
                n <= self.envs.len(),
                es == env_views(self.envs@),
                env_by_id(es, es.len() as int, id) == env_by_id(es, n as int, id),
            decreases n,
        {
            assert(es[n - 1] == self.envs@[n - 1]@);
            if self.envs[n - 1].id == id {
                return Some(n - 1);
            }
            n -= 1;
        }
        None
    }

    /// The identifier of the environment with the name `name`.
    pub fn get_env_id(&self, name: &str) -> (r: Option<u64>)
        ensures
            r == self@.id_of(name@),
    {
        match self.find_env_by_name(name) {
            Some(i) => {
                assert(self@.envs[i as int] == self.envs@[i as int]@);
                Some(self.envs[i].id)
            },
            None => None,
        }
    }

    /// The name of the environment with the identifier `id`.
    pub fn get_env_name_by_id(&self, id: u64) -> (r: Option<String>)
        ensures
            opt_str_view(r) == (if env_by_id(self@.envs, self@.envs.len() as int, id) >= 0 {
                Some(self@.envs[env_by_id(self@.envs, self@.envs.len() as int, id)].name)
            } else {
                None
            }),
            r.is_some() == self@.has_env(id),
    {
        proof {
            lemma_env_by_id(self@.envs, self@.envs.len() as int, id);
        }
        match self.find_env_by_id(id) {
            Some(i) => {
                assert(self@.envs[i as int] == self.envs@[i as int]@);
                Some(self.envs[i].name.clone())
            },
            None => None,
        }
    }

    /// The name of the environment at the path `path`.
    pub fn get_env_name_by_path(&self, path: &str) -> (r: Option<String>)
        ensures
            opt_str_view(r) == (if env_by_path(self@.envs, self@.envs.len() as int, path@) >= 0 {
                Some(self@.envs[env_by_path(self@.envs, self@.envs.len() as int, path@)].name)
            } else {
                None
            }),
    {
        match self.find_env_by_path(path) {
            Some(i) => {
                assert(self@.envs[i as int] == self.envs@[i as int]@);
                Some(self.envs[i].name.clone())
            },
            None => None,
        }
    }

    /// The registered environments, in the order in which they were
    /// first registered.
    pub fn list_envs(&self) -> (r: &Vec<Environment>)
        ensures
            env_views(r@) == self@.envs,
    {
        &self.envs
    }
}


/// Which links an operation removes.
#[derive(Debug, Clone)]
pub enum LinkSelector {
    /// The links of an environment.
    OfEnv(u64),
    /// The links of a project directory.
    AtPath(String),
    /// The link between a project directory and an environment.
    Pair(String, u64),
    /// The links that were made by activation; with a time, only those
    /// never activated or last activated before it.
    Activated(Option<i64>),
}

/// A selector, as characters.
pub enum SelectorView {
    OfEnv(u64),
    AtPath(Seq<char>),
    Pair(Seq<char>, u64),
    Activated(Option<i64>),
}

impl View for LinkSelector {
    type V = SelectorView;

    open spec fn view(&self) -> SelectorView {
        match self {
            LinkSelector::OfEnv(id) => SelectorView::OfEnv(*id),
            LinkSelector::AtPath(p) => SelectorView::AtPath(p@),
            LinkSelector::Pair(p, id) => SelectorView::Pair(p@, *id),
            LinkSelector::Activated(before) => SelectorView::Activated(*before),
        }
    }
}

impl SelectorView {
    /// Whether the selector selects the link.
    pub open spec fn selects(self, l: LinkView) -> bool {
        match self {
            SelectorView::OfEnv(id) => l.env_id == id,
            SelectorView::AtPath(p) => l.project_path == p,
            SelectorView::Pair(p, id) => l.project_path == p && l.env_id == id,
            SelectorView::Activated(before) => l.link_type == LinkType::Activated && (match before {
                None => true,
                Some(t) => match l.last_activated_at {
                    None => true,
                    Some(at) => at < t,
                },
            }),
        }
    }

}

impl LinkSelector {
    fn selects_link(&self, l: &ProjectLink) -> (b: bool)
        ensures
            b == self@.selects(l@),
    {
        match self {
            LinkSelector::OfEnv(id) => l.env_id == *id,
            LinkSelector::AtPath(p) => str_eq(l.project_path.as_str(), p.as_str()),
            LinkSelector::Pair(p, id) => str_eq(l.project_path.as_str(), p.as_str()) && l.env_id
                == *id,
            LinkSelector::Activated(before) => {
                let activated = match l.link_type {
                    LinkType::Activated => true,
                    LinkType::User => false,
                };
                activated && (match before {
                    None => true,
                    Some(t) => match l.last_activated_at {
                        None => true,
                        Some(at) => at < *t,
                    },
                })
            },
        }
    }
}

/// The links that the selector does not select.
pub open spec fn not_selected(sel: SelectorView) -> spec_fn(LinkView) -> bool {
    |l: LinkView| !sel.selects(l)
}

/// The labels of other environments than `id`.
pub open spec fn label_of_other_env(id: u64) -> spec_fn(LabelView) -> bool {
    |l: LabelView| l.env_id != id
}

/// The labels other than the label `label` of the environment `id`.
pub open spec fn other_label(id: u64, label: Seq<char>) -> spec_fn(LabelView) -> bool {
    |l: LabelView| !(l.env_id == id && l.label == label)
}

/// Two elements of a filtered sequence come from two elements of the
/// sequence, in the same order.
pub proof fn lemma_filter_pair<A>(s: Seq<A>, keep: spec_fn(A) -> bool, a: int, b: int) -> (r: (
    int,
    int,
))
    requires
        0 <= a < b < s.filter(keep).len(),
    ensures
        0 <= r.0 < r.1 < s.len(),
        s[r.0] == s.filter(keep)[a],
        s[r.1] == s.filter(keep)[b],
    decreases s.len(),
{
    reveal(Seq::filter);
    let rest = s.drop_last();
    let f = rest.filter(keep);
    if keep(s.last()) && b == f.len() {
        let i = lemma_filter_one(rest, keep, a);
        (i, s.len() - 1)
    } else {
        let r = lemma_filter_pair(rest, keep, a, b);
        r
    }
}

/// An element of a filtered sequence comes from an element of the
/// sequence, and is one that is kept.
pub proof fn lemma_filter_one<A>(s: Seq<A>, keep: spec_fn(A) -> bool, a: int) -> (i: int)
    requires
        0 <= a < s.filter(keep).len(),
    ensures
        0 <= i < s.len(),
        s[i] == s.filter(keep)[a],
        keep(s[i]),
    decreases s.len(),
{
    reveal(Seq::filter);
    let rest = s.drop_last();
    let f = rest.filter(keep);
    if keep(s.last()) && a == f.len() {
        s.len() - 1
    } else {
        let i = lemma_filter_one(rest, keep, a);
        i
    }
}

impl RegistryView {
    /// The content after the environment `name` is registered at `path`
    /// with the Python version `python_version` at the time `now`, and
    /// the identifier of the environment.
    ///
    /// An environment that is registered under the name is updated and
    /// keeps its identifier, labels and links; else a new one is added.
    /// A path at which another environment is registered is refused.
    pub open spec fn register(
        self,
        name: Seq<char>,
        path: Seq<char>,
        python_version: Seq<char>,
        now: i64,
    ) -> Result<(RegistryView, u64), RegistryError> {
        let i = env_by_name(self.envs, self.envs.len() as int, name);
        let p = env_by_path(self.envs, self.envs.len() as int, path);
        if p >= 0 && p != i {
            Err(RegistryError::PathTaken)
        } else if i >= 0 {
            Ok(
                (
                    RegistryView {
                        envs: self.envs.update(
                            i,
                            EnvView { path, python_version, updated_at: now, ..self.envs[i] },
                        ),
                        ..self
                    },
                    self.envs[i].id,
                ),
            )
        } else if self.next_id == u64::MAX {
            Err(RegistryError::Full)
        } else {
            Ok(
                (
                    RegistryView {
                        envs: self.envs.push(
                            EnvView {
                                id: self.next_id,
                                name,
                                path,
                                python_version,
                                updated_at: now,
                                is_favorite: false,
                            },
                        ),
                        next_id: (self.next_id + 1) as u64,
                        ..self
                    },
                    self.next_id,
                ),
            )
        }
    }

    /// The content without the environment `name`, its labels and its
    /// links.
    pub open spec fn without_env(self, name: Seq<char>) -> RegistryView {
        let i = env_by_name(self.envs, self.envs.len() as int, name);
        if i >= 0 {
            RegistryView {
                envs: self.envs.remove(i),
                labels: self.labels.filter(label_of_other_env(self.envs[i].id)),
                links: self.links.filter(not_selected(SelectorView::OfEnv(self.envs[i].id))),
                notes: notes_forgetting(self.notes, self.envs[i].id),
                ..self
            }
        } else {
            self
        }
    }

    /// The content with the label `label`, already in lowercase, on the
    /// environment `id`. A label that is there is not added again.
    pub open spec fn with_label(self, id: u64, label: Seq<char>) -> RegistryView {
        if label_index(self.labels, self.labels.len() as int, id, label) >= 0 {
            self
        } else {
            RegistryView { labels: self.labels.push(LabelView { env_id: id, label }), ..self }
        }
    }

    /// The content without the label `label` on the environment `id`.
    pub open spec fn without_label(self, id: u64, label: Seq<char>) -> RegistryView {
        RegistryView { labels: self.labels.filter(other_label(id, label)), ..self }
    }

    /// The content without the links that `sel` selects.
    pub open spec fn without_links(self, sel: SelectorView) -> RegistryView {
        RegistryView { links: self.links.filter(not_selected(sel)), ..self }
    }
}

/// The notes with no note about the environment `id` any more: a note
/// that was about it is kept, and is about no environment.
pub open spec fn notes_forgetting(notes: Seq<NoteView>, id: u64) -> Seq<NoteView> {
    Seq::new(
        notes.len(),
        |i: int|
            if notes[i].env_id == Some(id) {
                NoteView { env_id: None, ..notes[i] }
            } else {
                notes[i]
            },
    )
}

/// The links with no default left for the directory `path`.
pub open spec fn defaults_cleared(links: Seq<LinkView>, path: Seq<char>) -> Seq<LinkView> {
    Seq::new(
        links.len(),
        |i: int|
            if links[i].project_path == path {
                LinkView { is_default: false, ..links[i] }
            } else {
                links[i]
            },
    )
}

/// The links after the user links the directory `path` to the
/// environment `env_id`.
///
/// With `is_default`, every other default of the directory is cleared.
/// A link that is there becomes a user link with the given tag and
/// default flag, and keeps its activation history; else a new user link
/// is added.
pub open spec fn associated(
    links: Seq<LinkView>,
    path: Seq<char>,
    env_id: u64,
    tag: Option<Seq<char>>,
    is_default: bool,
) -> Seq<LinkView> {
    let cleared = if is_default {
        defaults_cleared(links, path)
    } else {
        links
    };
    let i = link_index(cleared, cleared.len() as int, path, env_id);
    if i >= 0 {
        cleared.update(
            i,
            LinkView { tag, is_default, link_type: LinkType::User, ..cleared[i] },
        )
    } else {
        cleared.push(
            LinkView {
                project_path: path,
                env_id,
                tag,
                is_default,
                link_type: LinkType::User,
                activation_count: 0,
                last_activated_at: None,
            },
        )
    }
}

/// One more than `count`, as far as the counter goes.
pub open spec fn bumped(count: u64) -> u64 {
    if count < u64::MAX {
        (count + 1) as u64
    } else {
        count
    }
}

/// The links after the environment `env_id` is activated in the
/// directory `path` at the time `now`.
///
/// A link that is there counts one activation more and keeps its type;
/// else a link of the type `Activated` is added, with one activation.
pub open spec fn activated(links: Seq<LinkView>, path: Seq<char>, env_id: u64, now: i64) -> Seq<
    LinkView,
> {
    let i = link_index(links, links.len() as int, path, env_id);
    if i >= 0 {
        links.update(
            i,
            LinkView {
                activation_count: bumped(links[i].activation_count),
                last_activated_at: Some(now),
                ..links[i]
            },
        )
    } else {
        links.push(
            LinkView {
                project_path: path,
                env_id,
                tag: None,
                is_default: false,
                link_type: LinkType::Activated,
                activation_count: 1,
                last_activated_at: Some(now),
            },
        )
    }
}

fn clone_opt_string(o: &Option<String>) -> (r: Option<String>)
    ensures
        opt_str_view(r) == opt_str_view(*o),
{
    match o {
        Some(s) => Some(s.clone()),
        None => None,
    }
}

impl ProjectLink {
    /// A copy of the link.
    pub fn duplicate(&self) -> (r: ProjectLink)
        ensures
            r@ == self@,
    {
        ProjectLink {
            project_path: self.project_path.clone(),
            env_id: self.env_id,
            tag: clone_opt_string(&self.tag),
            is_default: self.is_default,
            link_type: self.link_type,
            activation_count: self.activation_count,
            last_activated_at: self.last_activated_at,
        }
    }
}

impl Note {
    /// A copy of the note.
    pub fn duplicate(&self) -> (r: Note)
        ensures
            r@ == self@,
    {
        Note {
            uuid: self.uuid.clone(),
            project_path: self.project_path.clone(),
            env_id: self.env_id,
            message: self.message.clone(),
            tag: clone_opt_string(&self.tag),
            created_at: self.created_at,
        }
    }
}

impl Label {
    /// A copy of the label.
    pub fn duplicate(&self) -> (r: Label)
        ensures
            r@ == self@,
    {
        Label { env_id: self.env_id, label: self.label.clone() }
    }
}

impl Environment {
    /// A copy of the environment.
    pub fn duplicate(&self) -> (r: Environment)
        ensures
            r@ == self@,
    {
        Environment {
            id: self.id,
            name: self.name.clone(),
            path: self.path.clone(),
            python_version: self.python_version.clone(),
            updated_at: self.updated_at,
            is_favorite: self.is_favorite,
        }
    }
}

fn filter_links(links: &Vec<ProjectLink>, sel: &LinkSelector) -> (out: Vec<ProjectLink>)
    ensures
        link_views(out@) == link_views(links@).filter(not_selected(sel@)),
{
    let mut out: Vec<ProjectLink> = Vec::new();
    let ghost ls = link_views(links@);
    let ghost keep = not_selected(sel@);
    let mut i: usize = 0;
    proof {
        reveal(Seq::filter);
        assert(ls.take(0).filter(keep) =~= Seq::<LinkView>::empty());
        assert(link_views(out@) =~= Seq::<LinkView>::empty());
    }
    while i < links.len()
        invariant
            i <= links.len(),
            ls == link_views(links@),
            keep == not_selected(sel@),
            link_views(out@) == ls.take(i as int).filter(keep),
        decreases links.len() - i,
    {
        assert(ls[i as int] == links@[i as int]@);
        proof {
            assert(ls.take(i + 1) == ls.take(i as int).push(ls[i as int]));
            ls.take(i as int).lemma_filter_push(ls[i as int], keep);
        }
        if !sel.selects_link(&links[i]) {
            let l = links[i].duplicate();
            assert(link_views(out@.push(l)) =~= link_views(out@).push(l@));
            out.push(l);
        }
        i += 1;
    }
    assert(ls.take(links.len() as int) == ls);
    out
}

fn filter_labels(labels: &Vec<Label>, id: u64, label: Option<&str>) -> (out: Vec<Label>)
    ensures
        label_views(out@) == label_views(labels@).filter(
            match label {
                Some(l) => other_label(id, l@),
                None => label_of_other_env(id),
            },
        ),
{
    let mut out: Vec<Label> = Vec::new();
    let ghost ls = label_views(labels@);
    let ghost keep = match label {
        Some(l) => other_label(id, l@),
        None => label_of_other_env(id),
    };
    let mut i: usize = 0;
    proof {
        reveal(Seq::filter);
        assert(ls.take(0).filter(keep) =~= Seq::<LabelView>::empty());
        assert(label_views(out@) =~= Seq::<LabelView>::empty());
    }
    while i < labels.len()
        invariant
            i <= labels.len(),
            ls == label_views(labels@),
            keep == (match label {
                Some(l) => other_label(id, l@),
                None => label_of_other_env(id),
            }),
            label_views(out@) == ls.take(i as int).filter(keep),
        decreases labels.len() - i,
    {
        assert(ls[i as int] == labels@[i as int]@);
        proof {
            assert(ls.take(i + 1) == ls.take(i as int).push(ls[i as int]));
            ls.take(i as int).lemma_filter_push(ls[i as int], keep);
        }
        let drop = labels[i].env_id == id && (match label {
            Some(l) => str_eq(labels[i].label.as_str(), l),
            None => true,
        });
        if !drop {
            let l = labels[i].duplicate();
            assert(label_views(out@.push(l)) =~= label_views(out@).push(l@));
            out.push(l);
        }
        i += 1;
    }
    assert(ls.take(labels.len() as int) == ls);
    out
}


/// Registering an environment keeps the rules of the registry.
pub proof fn lemma_register_wf(
    v: RegistryView,
    name: Seq<char>,
    path: Seq<char>,
    python_version: Seq<char>,
    now: i64,
)
    requires
        v.wf(),
        v.register(name, path, python_version, now).is_ok(),
    ensures
        v.register(name, path, python_version, now).unwrap().0.wf(),
        v.register(name, path, python_version, now).unwrap().0.id_of(name) == Some(
            v.register(name, path, python_version, now).unwrap().1,
        ),
        forall|id: u64|
            v.has_env(id) ==> #[trigger] v.register(
                name,
                path,
                python_version,
                now,
            ).unwrap().0.has_env(id),
{
    let r = v.register(name, path, python_version, now).unwrap().0;
    let i = env_by_name(v.envs, v.envs.len() as int, name);
    lemma_env_by_name(v.envs, v.envs.len() as int, name);
    lemma_env_by_path(v.envs, v.envs.len() as int, path);
    lemma_env_by_name(r.envs, r.envs.len() as int, name);
    assert forall|id: u64| v.has_env(id) implies #[trigger] r.has_env(id) by {
        let k = choose|k: int| 0 <= k < v.envs.len() && (#[trigger] v.envs[k]).id == id;
        assert(r.envs[k].id == id);
    }
    assert forall|k: int| 0 <= k < r.labels.len() implies r.has_env(
        (#[trigger] r.labels[k]).env_id,
    ) by {
        assert(v.has_env(v.labels[k].env_id));
    }
    assert forall|k: int| 0 <= k < r.links.len() implies r.has_env(
        (#[trigger] r.links[k]).env_id,
    ) by {
        assert(v.has_env(v.links[k].env_id));
    }
    lemma_notes_ok_kept(v, r);
    if i >= 0 {
        assert(r.envs[i].name == name);
        let j = env_by_name(r.envs, r.envs.len() as int, name);
        if j != i {
            if j >= 0 {
                assert(r.envs[j].name == name);
                if j < i {
                    assert(v.envs[j].name != v.envs[i].name);
                } else {
                    assert(v.envs[i].name != v.envs[j].name);
                }
            } else {
                assert(r.envs[i].name != name);
            }
        }
    } else {
        assert(r.envs[v.envs.len() as int].name == name);
    }
}

/// An environment is still registered after another one is removed.
proof fn lemma_removed_has_env(v: RegistryView, i: int, id: u64)
    requires
        0 <= i < v.envs.len(),
        v.has_env(id),
        id != v.envs[i].id,
    ensures
        (RegistryView { envs: v.envs.remove(i), ..v }).has_env(id),
{
    let k = choose|k: int| 0 <= k < v.envs.len() && (#[trigger] v.envs[k]).id == id;
    let r = RegistryView { envs: v.envs.remove(i), ..v };
    if k < i {
        assert(r.envs[k].id == id);
    } else {
        assert(r.envs[k - 1].id == id);
    }
}

/// An environment is registered exactly when the search by its
/// identifier finds it.
pub proof fn lemma_has_env_iff(v: RegistryView, id: u64)
    ensures
        v.has_env(id) <==> env_by_id(v.envs, v.envs.len() as int, id) >= 0,
{
    lemma_env_by_id(v.envs, v.envs.len() as int, id);
    let e = env_by_id(v.envs, v.envs.len() as int, id);
    if e >= 0 {
        assert(v.envs[e].id == id);
    }
    if v.has_env(id) {
        let k = choose|k: int| 0 <= k < v.envs.len() && (#[trigger] v.envs[k]).id == id;
        if e < 0 {
            assert(v.envs[k].id != id);
        }
    }
}

/// Notes that keep the rules with some environments keep them with
/// environments among which every one of those is still registered.
proof fn lemma_notes_ok_kept(v: RegistryView, r: RegistryView)
    requires
        notes_ok(v.envs, v.notes),
        r.notes == v.notes,
        forall|id: u64| v.has_env(id) ==> #[trigger] r.has_env(id),
    ensures
        notes_ok(r.envs, r.notes),
{
    assert forall|i: int| 0 <= i < r.notes.len() && (#[trigger] r.notes[i]).env_id.is_some() implies env_by_id(
        r.envs,
        r.envs.len() as int,
        r.notes[i].env_id.unwrap(),
    ) >= 0 by {
        let id = r.notes[i].env_id.unwrap();
        lemma_has_env_iff(v, id);
        assert(r.has_env(id));
        lemma_has_env_iff(r, id);
    }
}

/// Whether an environment is registered depends on the environments
/// only.
proof fn lemma_has_env_same(v: RegistryView, r: RegistryView, id: u64)
    requires
        r.envs == v.envs,
        v.has_env(id),
    ensures
        r.has_env(id),
{
    let k = choose|k: int| 0 <= k < v.envs.len() && (#[trigger] v.envs[k]).id == id;
    assert(r.envs[k].id == id);
}

/// Removing an environment keeps the rules of the registry, and leaves
/// nothing of the environment behind.
pub proof fn lemma_without_env_wf(v: RegistryView, name: Seq<char>)
    requires
        v.wf(),
    ensures
        v.without_env(name).wf(),
        v.without_env(name).id_of(name).is_none(),
        v.id_of(name) matches Some(id) ==> !v.without_env(name).has_env(id) && (forall|k: int|
            0 <= k < v.without_env(name).labels.len() ==> (#[trigger] v.without_env(
                name,
            ).labels[k]).env_id != id) && (forall|k: int|
            0 <= k < v.without_env(name).links.len() ==> (#[trigger] v.without_env(
                name,
            ).links[k]).env_id != id),
{
    let r = v.without_env(name);
    let i = env_by_name(v.envs, v.envs.len() as int, name);
    lemma_env_by_name(v.envs, v.envs.len() as int, name);
    lemma_env_by_name(r.envs, r.envs.len() as int, name);
    if i >= 0 {
        let id = v.envs[i].id;
        let keep_label = label_of_other_env(id);
        let keep_link = not_selected(SelectorView::OfEnv(id));
        assert forall|a: int, b: int| 0 <= a < b < r.envs.len() implies (#[trigger] r.envs[a]).id
            != (#[trigger] r.envs[b]).id && r.envs[a].name != r.envs[b].name && r.envs[a].path
            != r.envs[b].path by {
            let a0 = if a < i {
                a
            } else {
                a + 1
            };
            let b0 = if b < i {
                b
            } else {
                b + 1
            };
            assert(r.envs[a] == v.envs[a0]);
            assert(r.envs[b] == v.envs[b0]);
        }
        assert forall|a: int| 0 <= a < r.envs.len() implies (#[trigger] r.envs[a]).id
            < r.next_id by {
            let a0 = if a < i {
                a
            } else {
                a + 1
            };
            assert(r.envs[a] == v.envs[a0]);
        }
        assert forall|a: int| 0 <= a < r.envs.len() implies (#[trigger] r.envs[a]).id != id
            && r.envs[a].name != name by {
            let a0 = if a < i {
                a
            } else {
                a + 1
            };
            assert(r.envs[a] == v.envs[a0]);
            if a0 < i {
                assert(v.envs[a0].id != v.envs[i].id);
            } else {
                assert(v.envs[i].id != v.envs[a0].id);
            }
        }
        assert(!r.has_env(id));
        assert forall|k: int| 0 <= k < r.labels.len() implies r.has_env(
            (#[trigger] r.labels[k]).env_id,
        ) && r.labels[k].env_id != id by {
            let k0 = lemma_filter_one(v.labels, keep_label, k);
            assert(v.has_env(v.labels[k0].env_id));
            lemma_removed_has_env(v, i, v.labels[k0].env_id);
        }
        assert forall|k: int| 0 <= k < r.links.len() implies r.has_env(
            (#[trigger] r.links[k]).env_id,
        ) && r.links[k].env_id != id by {
            let k0 = lemma_filter_one(v.links, keep_link, k);
            assert(v.has_env(v.links[k0].env_id));
            lemma_removed_has_env(v, i, v.links[k0].env_id);
        }
        assert forall|a: int, b: int| 0 <= a < b < r.labels.len() implies !((
        #[trigger] r.labels[a]).env_id == (#[trigger] r.labels[b]).env_id && r.labels[a].label
            == r.labels[b].label) by {
            let w = lemma_filter_pair(v.labels, keep_label, a, b);
            assert(!(v.labels[w.0].env_id == v.labels[w.1].env_id && v.labels[w.0].label
                == v.labels[w.1].label));
        }
        lemma_filtered_links_wf(v.links, keep_link);
        assert forall|k: int|
            0 <= k < r.notes.len() && (#[trigger] r.notes[k]).env_id.is_some() implies env_by_id(
            r.envs,
            r.envs.len() as int,
            r.notes[k].env_id.unwrap(),
        ) >= 0 by {
            let nid = v.notes[k].env_id.unwrap();
            assert(r.notes[k].env_id == Some(nid) && nid != id);
            lemma_has_env_iff(v, nid);
            lemma_removed_has_env(v, i, nid);
            assert((RegistryView { envs: v.envs.remove(i), ..v }).envs == r.envs);
            lemma_has_env_same(RegistryView { envs: v.envs.remove(i), ..v }, r, nid);
            lemma_has_env_iff(r, nid);
        }
        assert forall|a: int, b: int| 0 <= a < b < r.notes.len() implies (#[trigger] r.notes[a]).uuid
            != (#[trigger] r.notes[b]).uuid by {
            assert(v.notes[a].uuid != v.notes[b].uuid);
        }
        if env_by_name(r.envs, r.envs.len() as int, name) >= 0 {
            assert(false);
        }
    }
}

/// Links that are filtered stay unique, with at most one default for a
/// directory.
proof fn lemma_filtered_links_wf(links: Seq<LinkView>, keep: spec_fn(LinkView) -> bool)
    requires
        links_unique(links),
    ensures
        links_unique(links.filter(keep)),
{
    let r = links.filter(keep);
    assert forall|a: int, b: int| 0 <= a < b < r.len() implies !((#[trigger] r[a]).project_path
        == (#[trigger] r[b]).project_path && r[a].env_id == r[b].env_id) && !(r[a].project_path
        == r[b].project_path && r[a].is_default && r[b].is_default) by {
        let w = lemma_filter_pair(links, keep, a, b);
        assert(!(links[w.0].project_path == links[w.1].project_path && links[w.0].env_id
            == links[w.1].env_id));
        assert(!(links[w.0].project_path == links[w.1].project_path && links[w.0].is_default
            && links[w.1].is_default));
    }
}

/// Whether there is one link for a directory and an environment, and at
/// most one default link for a directory.
pub open spec fn links_unique(links: Seq<LinkView>) -> bool {
    &&& forall|i: int, j: int|
        0 <= i < j < links.len() ==> !((#[trigger] links[i]).project_path == (
        #[trigger] links[j]).project_path && links[i].env_id == links[j].env_id)
    &&& forall|i: int, j: int|
        0 <= i < j < links.len() ==> !((#[trigger] links[i]).project_path == (
        #[trigger] links[j]).project_path && links[i].is_default && links[j].is_default)
}

/// Removing links keeps the rules of the registry.
pub proof fn lemma_without_links_wf(v: RegistryView, sel: SelectorView)
    requires
        v.wf(),
    ensures
        v.without_links(sel).wf(),
        forall|k: int|
            0 <= k < v.without_links(sel).links.len() ==> !sel.selects(
                #[trigger] v.without_links(sel).links[k],
            ),
{
    let r = v.without_links(sel);
    let keep = not_selected(sel);
    lemma_filtered_links_wf(v.links, keep);
    assert forall|k: int| 0 <= k < r.links.len() implies r.has_env((#[trigger] r.links[k]).env_id)
        && !sel.selects(r.links[k]) by {
        let k0 = lemma_filter_one(v.links, keep, k);
        assert(v.has_env(v.links[k0].env_id));
        lemma_has_env_same(v, r, v.links[k0].env_id);
    }
    assert forall|k: int| 0 <= k < r.labels.len() implies r.has_env(
        (#[trigger] r.labels[k]).env_id,
    ) by {
        assert(v.has_env(v.labels[k].env_id));
        lemma_has_env_same(v, r, v.labels[k].env_id);
    }
}

/// Adding a label keeps the rules of the registry, and the label is
/// there afterwards, once. Adding it again changes nothing.
pub proof fn lemma_with_label_wf(v: RegistryView, id: u64, label: Seq<char>)
    requires
        v.wf(),
        v.has_env(id),
    ensures
        v.with_label(id, label).wf(),
        label_index(
            v.with_label(id, label).labels,
            v.with_label(id, label).labels.len() as int,
            id,
            label,
        ) >= 0,
        v.with_label(id, label).with_label(id, label) == v.with_label(id, label),
{
    let r = v.with_label(id, label);
    lemma_label_index(v.labels, v.labels.len() as int, id, label);
    lemma_label_index(r.labels, r.labels.len() as int, id, label);
    if label_index(v.labels, v.labels.len() as int, id, label) < 0 {
        assert(r.labels[v.labels.len() as int] == (LabelView { env_id: id, label }));
        assert forall|k: int| 0 <= k < r.labels.len() implies r.has_env(
            (#[trigger] r.labels[k]).env_id,
        ) by {
            if k < v.labels.len() {
                assert(v.has_env(v.labels[k].env_id));
                lemma_has_env_same(v, r, v.labels[k].env_id);
            } else {
                lemma_has_env_same(v, r, id);
            }
        }
        assert forall|k: int| 0 <= k < r.links.len() implies r.has_env(
            (#[trigger] r.links[k]).env_id,
        ) by {
            assert(v.has_env(v.links[k].env_id));
            lemma_has_env_same(v, r, v.links[k].env_id);
        }
    }
}

/// Removing a label keeps the rules of the registry, and the label is
/// gone afterwards.
pub proof fn lemma_without_label_wf(v: RegistryView, id: u64, label: Seq<char>)
    requires
        v.wf(),
    ensures
        v.without_label(id, label).wf(),
        label_index(
            v.without_label(id, label).labels,
            v.without_label(id, label).labels.len() as int,
            id,
            label,
        ) < 0,
{
    let r = v.without_label(id, label);
    let keep = other_label(id, label);
    assert forall|k: int| 0 <= k < r.labels.len() implies r.has_env(
        (#[trigger] r.labels[k]).env_id,
    ) && !(r.labels[k].env_id == id && r.labels[k].label == label) by {
        let k0 = lemma_filter_one(v.labels, keep, k);
        assert(v.has_env(v.labels[k0].env_id));
        lemma_has_env_same(v, r, v.labels[k0].env_id);
    }
    assert forall|k: int| 0 <= k < r.links.len() implies r.has_env(
        (#[trigger] r.links[k]).env_id,
    ) by {
        assert(v.has_env(v.links[k].env_id));
        lemma_has_env_same(v, r, v.links[k].env_id);
    }
    assert forall|a: int, b: int| 0 <= a < b < r.labels.len() implies !((
    #[trigger] r.labels[a]).env_id == (#[trigger] r.labels[b]).env_id && r.labels[a].label
        == r.labels[b].label) by {
        let w = lemma_filter_pair(v.labels, keep, a, b);
        assert(!(v.labels[w.0].env_id == v.labels[w.1].env_id && v.labels[w.0].label
            == v.labels[w.1].label));
    }
    lemma_label_index(r.labels, r.labels.len() as int, id, label);
}


/// What linking a directory to an environment does to the links.
///
/// The links stay unique. The link asked for is there afterwards, as a
/// user link. Every link that was there is still there, for the same
/// directory and environment, with its activation history, and a user
/// link is still a user link; links of other directories are untouched.
/// Where the link is made the default, it is the only default of its
/// directory. Linking again, with the same arguments, changes nothing.
pub proof fn lemma_associated(
    links: Seq<LinkView>,
    path: Seq<char>,
    env_id: u64,
    tag: Option<Seq<char>>,
    is_default: bool,
)
    requires
        links_unique(links),
    ensures
        links_unique(associated(links, path, env_id, tag, is_default)),
        links.len() <= associated(links, path, env_id, tag, is_default).len() <= links.len() + 1,
        ({
            let r = associated(links, path, env_id, tag, is_default);
            let i = link_index(r, r.len() as int, path, env_id);
            &&& 0 <= i < r.len()
            &&& r[i].project_path == path
            &&& r[i].env_id == env_id
            &&& r[i].link_type == LinkType::User
            &&& r[i].is_default == is_default
            &&& r[i].tag == tag
            &&& r.len() > links.len() ==> i == links.len()
            &&& forall|k: int|
                0 <= k < links.len() ==> (#[trigger] r[k]).project_path == links[k].project_path
                    && r[k].env_id == links[k].env_id && r[k].activation_count
                    == links[k].activation_count && r[k].last_activated_at
                    == links[k].last_activated_at && (links[k].link_type == LinkType::User
                    ==> r[k].link_type == LinkType::User) && (links[k].project_path != path
                    ==> r[k] == links[k])
            &&& is_default ==> forall|k: int|
                0 <= k < r.len() && (#[trigger] r[k]).project_path == path && r[k].is_default
                    ==> k == i
            &&& associated(r, path, env_id, tag, is_default) == r
        }),
{
    let cleared = if is_default {
        defaults_cleared(links, path)
    } else {
        links
    };
    let r = associated(links, path, env_id, tag, is_default);
    lemma_link_index(cleared, cleared.len() as int, path, env_id);
    let c = link_index(cleared, cleared.len() as int, path, env_id);
    assert forall|a: int, b: int| 0 <= a < b < r.len() implies !((#[trigger] r[a]).project_path
        == (#[trigger] r[b]).project_path && r[a].env_id == r[b].env_id) && !(r[a].project_path
        == r[b].project_path && r[a].is_default && r[b].is_default) by {
        if b < links.len() {
            assert(!(links[a].project_path == links[b].project_path && links[a].env_id
                == links[b].env_id));
            assert(!(links[a].project_path == links[b].project_path && links[a].is_default
                && links[b].is_default));
            if !is_default && c >= 0 && (a == c || b == c) && r[a].project_path
                == r[b].project_path && r[a].is_default && r[b].is_default {
                assert(false);
            }
        }
    }
    lemma_link_index(r, r.len() as int, path, env_id);
    let i = link_index(r, r.len() as int, path, env_id);
    if c >= 0 {
        assert(r[c].project_path == path && r[c].env_id == env_id);
        if i != c {
            if i < c {
                assert(!(r[i].project_path == r[c].project_path && r[i].env_id == r[c].env_id));
            } else {
                assert(!(r[c].project_path == r[i].project_path && r[c].env_id == r[i].env_id));
            }
        }
    } else {
        assert(r[links.len() as int].project_path == path && r[links.len() as int].env_id
            == env_id);
        if i != links.len() {
            assert(!(r[i].project_path == path && r[i].env_id == env_id));
        }
    }
    let cleared2 = if is_default {
        defaults_cleared(r, path)
    } else {
        r
    };
    assert forall|k: int| 0 <= k < r.len() && k != i implies cleared2[k] == r[k] by {}
    lemma_link_index(cleared2, cleared2.len() as int, path, env_id);
    let i2 = link_index(cleared2, cleared2.len() as int, path, env_id);
    assert(cleared2[i].project_path == path && cleared2[i].env_id == env_id);
    if i2 != i {
        if i2 >= 0 {
            if i2 < i {
                assert(!(r[i2].project_path == r[i].project_path && r[i2].env_id == r[i].env_id));
            } else {
                assert(!(r[i].project_path == r[i2].project_path && r[i].env_id == r[i2].env_id));
            }
        }
    }
    assert(associated(r, path, env_id, tag, is_default) =~= r);
}

/// What the activation of an environment in a directory does to the
/// links.
///
/// The links stay unique. Every link that was there is still there, for
/// the same directory and environment and with the same type, tag and
/// default flag; its count of activations is not lower than before. The
/// link of the directory and the environment is there afterwards, and a
/// further activation adds no link.
pub proof fn lemma_activated(links: Seq<LinkView>, path: Seq<char>, env_id: u64, now: i64)
    requires
        links_unique(links),
    ensures
        links_unique(activated(links, path, env_id, now)),
        links.len() <= activated(links, path, env_id, now).len() <= links.len() + 1,
        ({
            let r = activated(links, path, env_id, now);
            let i = link_index(r, r.len() as int, path, env_id);
            &&& 0 <= i < r.len()
            &&& r[i].project_path == path
            &&& r[i].env_id == env_id
            &&& r[i].last_activated_at == Some(now)
            &&& r[i].activation_count >= 1
            &&& r.len() > links.len() ==> i == links.len() && r[i].link_type
                == LinkType::Activated
            &&& forall|k: int|
                0 <= k < links.len() ==> (#[trigger] r[k]).project_path == links[k].project_path
                    && r[k].env_id == links[k].env_id && r[k].activation_count
                    >= links[k].activation_count && r[k].link_type == links[k].link_type
                    && r[k].is_default == links[k].is_default && r[k].tag == links[k].tag && (k
                    != i ==> r[k] == links[k])
            &&& forall|later: i64| activated(r, path, env_id, later).len() == r.len()
        }),
{
    let r = activated(links, path, env_id, now);
    lemma_link_index(links, links.len() as int, path, env_id);
    let c = link_index(links, links.len() as int, path, env_id);
    assert forall|a: int, b: int| 0 <= a < b < r.len() implies !((#[trigger] r[a]).project_path
        == (#[trigger] r[b]).project_path && r[a].env_id == r[b].env_id) && !(r[a].project_path
        == r[b].project_path && r[a].is_default && r[b].is_default) by {
        if b < links.len() {
            assert(!(links[a].project_path == links[b].project_path && links[a].env_id
                == links[b].env_id));
            assert(!(links[a].project_path == links[b].project_path && links[a].is_default
                && links[b].is_default));
        }
    }
    lemma_link_index(r, r.len() as int, path, env_id);
    let i = link_index(r, r.len() as int, path, env_id);
    if c >= 0 {
        assert(r[c].project_path == path && r[c].env_id == env_id);
        if i != c {
            if i < c {
                assert(!(r[i].project_path == r[c].project_path && r[i].env_id == r[c].env_id));
            } else {
                assert(!(r[c].project_path == r[i].project_path && r[c].env_id == r[i].env_id));
            }
        }
    } else {
        assert(r[links.len() as int].project_path == path && r[links.len() as int].env_id
            == env_id);
        if i != links.len() {
            assert(!(r[i].project_path == path && r[i].env_id == env_id));
        }
    }
}


/// The texts of the labels of the environment `id` among the first `n`
/// labels, in the order in which they were added.
pub open spec fn labels_of(labels: Seq<LabelView>, n: int, id: u64) -> Seq<Seq<char>>
    decreases n,
{
    if n <= 0 {
        Seq::empty()
    } else if labels[n - 1].env_id == id {
        labels_of(labels, n - 1, id).push(labels[n - 1].label)
    } else {
        labels_of(labels, n - 1, id)
    }
}

/// The names of those of the first `n` environments that have the label
/// `label`, in the order of the environments.
pub open spec fn envs_with_label(v: RegistryView, n: int, label: Seq<char>) -> Seq<Seq<char>>
    decreases n,
{
    if n <= 0 {
        Seq::empty()
    } else if label_index(v.labels, v.labels.len() as int, v.envs[n - 1].id, label) >= 0 {
        envs_with_label(v, n - 1, label).push(v.envs[n - 1].name)
    } else {
        envs_with_label(v, n - 1, label)
    }
}

/// The index of the default link of the directory `path` among the
/// first `n` links, or -1.
pub open spec fn default_index(links: Seq<LinkView>, n: int, path: Seq<char>) -> int
    decreases n,
{
    if n <= 0 {
        -1
    } else if links[n - 1].project_path == path && links[n - 1].is_default {
        n - 1
    } else {
        default_index(links, n - 1, path)
    }
}

/// The value of the configuration key `key`.
pub open spec fn config_value(config: Seq<ConfigView>, key: Seq<char>) -> Option<Seq<char>> {
    let i = config_index(config, config.len() as int, key);
    if i >= 0 {
        Some(config[i].value)
    } else {
        None
    }
}

/// The configuration with the value `value` for the key `key`.
pub open spec fn config_with(config: Seq<ConfigView>, key: Seq<char>, value: Seq<char>) -> Seq<
    ConfigView,
> {
    let i = config_index(config, config.len() as int, key);
    if i >= 0 {
        config.update(i, ConfigView { key, value })
    } else {
        config.push(ConfigView { key, value })
    }
}

/// The search for a key finds an entry with the key, or there is none
/// among those searched.
pub proof fn lemma_config_index(config: Seq<ConfigView>, n: int, key: Seq<char>)
    requires
        0 <= n <= config.len(),
    ensures
        -1 <= config_index(config, n, key) < n,
        config_index(config, n, key) >= 0 ==> config[config_index(config, n, key)].key == key,
        config_index(config, n, key) < 0 ==> forall|i: int|
            0 <= i < n ==> (#[trigger] config[i]).key != key,
    decreases n,
{
    if n > 0 && config[n - 1].key != key {
        lemma_config_index(config, n - 1, key);
    }
}

impl Registry {
    /// Registers the environment `name` at `path`, or updates it if it is
    /// registered already; `now` is the time of the call. Returns the
    /// identifier of the environment.
    pub fn register_env(&mut self, name: &str, path: &str, python_version: &str, now: i64) -> (r:
        Result<u64, RegistryError>)
        requires
            old(self)@.wf(),
        ensures
            final(self)@.wf(),
            match r {
                Ok(id) => old(self)@.register(name@, path@, python_version@, now) == Ok::<
                    (RegistryView, u64),
                    RegistryError,
                >((final(self)@, id)) && final(self)@.id_of(name@) == Some(id),
                Err(e) => old(self)@.register(name@, path@, python_version@, now) == Err::<
                    (RegistryView, u64),
                    RegistryError,
                >(e) && final(self)@ == old(self)@,
            },
    {
        let i = self.find_env_by_name(name);
        let p = self.find_env_by_path(path);
        let ghost before = self@;
        proof {
            if before.register(name@, path@, python_version@, now).is_ok() {
                lemma_register_wf(before, name@, path@, python_version@, now);
            }
        }
        match p {
            Some(pi) => {
                let same_env = match i {
                    Some(ii) => ii == pi,
                    None => false,
                };
                if !same_env {
                    return Err(RegistryError::PathTaken);
                }
            },
            None => {},
        }
        match i {
            Some(ii) => {
                assert(before.envs[ii as int] == self.envs@[ii as int]@);
                let e = Environment {
                    id: self.envs[ii].id,
                    name: self.envs[ii].name.clone(),
                    path: copy_str(path),
                    python_version: copy_str(python_version),
                    updated_at: now,
                    is_favorite: self.envs[ii].is_favorite,
                };
                let id = e.id;
                self.envs.set(ii, e);
                assert(env_views(self.envs@) =~= before.envs.update(
                    ii as int,
                    EnvView {
                        path: path@,
                        python_version: python_version@,
                        updated_at: now,
                        ..before.envs[ii as int]
                    },
                ));
                Ok(id)
            },
            None => {
                if self.next_id == u64::MAX {
                    return Err(RegistryError::Full);
                }
                let id = self.next_id;
                let e = Environment {
                    id,
                    name: copy_str(name),
                    path: copy_str(path),
                    python_version: copy_str(python_version),
                    updated_at: now,
                    is_favorite: false,
                };
                self.envs.push(e);
                self.next_id = id + 1;
                assert(env_views(self.envs@) =~= before.envs.push(
                    EnvView {
                        id,
                        name: name@,
                        path: path@,
                        python_version: python_version@,
                        updated_at: now,
                        is_favorite: false,
                    },
                ));
                Ok(id)
            },
        }
    }

    /// Removes the environment `name` with its labels and links. Returns
    /// whether there was such an environment.
    pub fn delete_env(&mut self, name: &str) -> (removed: bool)
        requires
            old(self)@.wf(),
        ensures
            final(self)@.wf(),
            final(self)@ == old(self)@.without_env(name@),
            removed == old(self)@.id_of(name@).is_some(),
            final(self)@.id_of(name@).is_none(),
    {
        let ghost before = self@;
        proof {
            lemma_without_env_wf(before, name@);
        }
        match self.find_env_by_name(name) {
            Some(i) => {
                assert(before.envs[i as int] == self.envs@[i as int]@);
                let id = self.envs[i].id;
                self.envs.remove(i);
                assert(env_views(self.envs@) =~= before.envs.remove(i as int));
                self.labels = filter_labels(&self.labels, id, None);
                self.links = filter_links(&self.links, &LinkSelector::OfEnv(id));
                let mut k: usize = 0;
                while k < self.notes.len()
                    invariant
                        k <= self.notes.len(),
                        self.notes.len() == before.notes.len(),
                        env_views(self.envs@) == before.envs.remove(i as int),
                        label_views(self.labels@) == before.labels.filter(label_of_other_env(id)),
                        link_views(self.links@) == before.links.filter(
                            not_selected(SelectorView::OfEnv(id)),
                        ),
                        self.config == old(self).config,
                        self.next_id == old(self).next_id,
                        forall|j: int|
                            0 <= j < k ==> (#[trigger] self.notes@[j])@ == notes_forgetting(
                                before.notes,
                                id,
                            )[j],
                        forall|j: int|
                            k <= j < self.notes.len() ==> (#[trigger] self.notes@[j])@
                                == before.notes[j],
                    decreases self.notes.len() - k,
                {
                    let about = match self.notes[k].env_id {
                        Some(e) => e == id,
                        None => false,
                    };
                    if about {
                        let mut n = self.notes[k].duplicate();
                        n.env_id = None;
                        self.notes.set(k, n);
                    }
                    k += 1;
                }
                assert(note_views(self.notes@) =~= notes_forgetting(before.notes, id));
                true
            },
            None => false,
        }
    }

    /// Adds a label to an environment. The text is stored in lowercase;
    /// a label that the environment has already is not added again.
    pub fn add_label(&mut self, env_name: &str, label: &str) -> (r: Result<(), RegistryError>)
        requires
            old(self)@.wf(),
        ensures
            final(self)@.wf(),
            match r {
                Ok(_) => old(self)@.id_of(env_name@) matches Some(id) && final(self)@ == old(
                    self,
                )@.with_label(id, lowercase(label@)),
                Err(e) => e == RegistryError::NotFound && old(self)@.id_of(env_name@).is_none()
                    && final(self)@ == old(self)@,
            },
    {
        let lowered = label.to_lowercase();
        self.add_stored_label(env_name, lowered.as_str())
    }

    /// Adds a label, given in the form in which it is stored, to an
    /// environment. A label that the environment has already is not
    /// added again.
    pub fn add_stored_label(&mut self, env_name: &str, label: &str) -> (r: Result<
        (),
        RegistryError,
    >)
        requires
            old(self)@.wf(),
        ensures
            final(self)@.wf(),
            match r {
                Ok(_) => old(self)@.id_of(env_name@) matches Some(id) && final(self)@ == old(
                    self,
                )@.with_label(id, label@),
                Err(e) => e == RegistryError::NotFound && old(self)@.id_of(env_name@).is_none()
                    && final(self)@ == old(self)@,
            },
    {
        let id = match self.get_env_id(env_name) {
            Some(id) => id,
            None => {
                return Err(RegistryError::NotFound);
            },
        };
        let ghost before = self@;
        proof {
            lemma_env_by_name(before.envs, before.envs.len() as int, env_name@);
            assert(before.envs[env_by_name(before.envs, before.envs.len() as int, env_name@)].id
                == id);
            lemma_with_label_wf(before, id, label@);
        }
        if self.find_label(id, label).is_none() {
            self.labels.push(Label { env_id: id, label: copy_str(label) });
            assert(label_views(self.labels@) =~= before.labels.push(
                LabelView { env_id: id, label: label@ },
            ));
        }
        Ok(())
    }

    fn find_label(&self, id: u64, label: &str) -> (r: Option<usize>)
        ensures
            match r {
                Some(i) => i == label_index(self@.labels, self@.labels.len() as int, id, label@)
                    && i < self.labels.len(),
                None => label_index(self@.labels, self@.labels.len() as int, id, label@) < 0,
            },
    {
        let mut n: usize = self.labels.len();
        let ghost ls = self@.labels;
        while n > 0
            invariant
                n <= self.labels.len(),
                ls == label_views(self.labels@),
                label_index(ls, ls.len() as int, id, label@) == label_index(
                    ls,
                    n as int,
                    id,
                    label@,
                ),
            decreases n,
        {
            assert(ls[n - 1] == self.labels@[n - 1]@);
            if self.labels[n - 1].env_id == id && str_eq(self.labels[n - 1].label.as_str(), label) {
                return Some(n - 1);
            }
            n -= 1;
        }
        None
    }

    /// Removes a label from an environment.
    pub fn remove_label(&mut self, env_name: &str, label: &str) -> (r: Result<(), RegistryError>)
        requires
            old(self)@.wf(),
        ensures
            final(self)@.wf(),
            match r {
                Ok(_) => old(self)@.id_of(env_name@) matches Some(id) && final(self)@ == old(
                    self,
                )@.without_label(id, lowercase(label@)),
                Err(e) => e == RegistryError::NotFound && old(self)@.id_of(env_name@).is_none()
                    && final(self)@ == old(self)@,
            },
    {
        let lowered = label.to_lowercase();
        self.remove_stored_label(env_name, lowered.as_str())
    }

    /// Removes a label, given in the form in which it is stored, from an
    /// environment.
    pub fn remove_stored_label(&mut self, env_name: &str, label: &str) -> (r: Result<
        (),
        RegistryError,
    >)
        requires
            old(self)@.wf(),
        ensures
            final(self)@.wf(),
            match r {
                Ok(_) => old(self)@.id_of(env_name@) matches Some(id) && final(self)@ == old(
                    self,
                )@.without_label(id, label@),
                Err(e) => e == RegistryError::NotFound && old(self)@.id_of(env_name@).is_none()
                    && final(self)@ == old(self)@,
            },
    {
        let id = match self.get_env_id(env_name) {
            Some(id) => id,
            None => {
                return Err(RegistryError::NotFound);
            },
        };
        let ghost before = self@;
        proof {
            lemma_without_label_wf(before, id, label@);
        }
        self.labels = filter_labels(&self.labels, id, Some(label));
        Ok(())
    }

    /// The labels of an environment, in ascending order.
    pub fn get_labels(&self, env_name: &str) -> (r: Result<Vec<String>, RegistryError>)
        ensures
            match r {
                Ok(v) => self@.id_of(env_name@) matches Some(id) && crate::text::string_views(v@)
                    == sorted_texts(labels_of(self@.labels, self@.labels.len() as int, id)),
                Err(e) => e == RegistryError::NotFound && self@.id_of(env_name@).is_none(),
            },
    {
        let id = match self.get_env_id(env_name) {
            Some(id) => id,
            None => {
                return Err(RegistryError::NotFound);
            },
        };
        let mut out: Vec<String> = Vec::new();
        let ghost ls = self@.labels;
        let mut i: usize = 0;
        proof {
            assert(crate::text::string_views(out@) =~= labels_of(ls, 0, id));
        }
        while i < self.labels.len()
            invariant
                i <= self.labels.len(),
                ls == label_views(self.labels@),
                crate::text::string_views(out@) == labels_of(ls, i as int, id),
            decreases self.labels.len() - i,
        {
            assert(ls[i as int] == self.labels@[i as int]@);
            if self.labels[i].env_id == id {
                let l = self.labels[i].label.clone();
                proof {
                    crate::text::lemma_string_views_push(out@, l);
                }
                out.push(l);
            }
            i += 1;
        }
        Ok(sort_texts(&out))
    }

    /// Whether an environment has a label.
    pub fn has_label(&self, env_name: &str, label: &str) -> (r: Result<bool, RegistryError>)
        ensures
            match r {
                Ok(b) => self@.id_of(env_name@) matches Some(id) && b == (label_index(
                    self@.labels,
                    self@.labels.len() as int,
                    id,
                    lowercase(label@),
                ) >= 0),
                Err(e) => e == RegistryError::NotFound && self@.id_of(env_name@).is_none(),
            },
    {
        let lowered = label.to_lowercase();
        self.has_stored_label(env_name, lowered.as_str())
    }

    /// Whether an environment has a label, given in the form in which
    /// it is stored.
    pub fn has_stored_label(&self, env_name: &str, label: &str) -> (r: Result<bool, RegistryError>)
        ensures
            match r {
                Ok(b) => self@.id_of(env_name@) matches Some(id) && b == (label_index(
                    self@.labels,
                    self@.labels.len() as int,
                    id,
                    label@,
                ) >= 0),
                Err(e) => e == RegistryError::NotFound && self@.id_of(env_name@).is_none(),
            },
    {
        let id = match self.get_env_id(env_name) {
            Some(id) => id,
            None => {
                return Err(RegistryError::NotFound);
            },
        };
        Ok(self.find_label(id, label).is_some())
    }

    /// The names of the environments that have a label, in ascending
    /// order.
    pub fn get_envs_by_label(&self, label: &str) -> (r: Vec<String>)
        ensures
            crate::text::string_views(r@) == sorted_texts(
                envs_with_label(self@, self@.envs.len() as int, lowercase(label@)),
            ),
    {
        let lowered = label.to_lowercase();
        self.get_envs_by_stored_label(lowered.as_str())
    }

    /// The names of the environments that have a label, given in the
    /// form in which it is stored, in ascending order.
    pub fn get_envs_by_stored_label(&self, label: &str) -> (r: Vec<String>)
        ensures
            crate::text::string_views(r@) == sorted_texts(
                envs_with_label(self@, self@.envs.len() as int, label@),
            ),
    {
        let mut out: Vec<String> = Vec::new();
        let ghost v = self@;
        let mut i: usize = 0;
        proof {
            assert(crate::text::string_views(out@) =~= envs_with_label(v, 0, label@));
        }
        while i < self.envs.len()
            invariant
                i <= self.envs.len(),
                v == self@,
                crate::text::string_views(out@) == envs_with_label(v, i as int, label@),
            decreases self.envs.len() - i,
        {
            assert(v.envs[i as int] == self.envs@[i as int]@);
            if self.find_label(self.envs[i].id, label).is_some() {
                let n = self.envs[i].name.clone();
                proof {
                    crate::text::lemma_string_views_push(out@, n);
                }
                out.push(n);
            }
            i += 1;
        }
        sort_texts(&out)
    }

    fn find_link(&self, path: &str, env_id: u64) -> (r: Option<usize>)
        ensures
            match r {
                Some(i) => i == link_index(self@.links, self@.links.len() as int, path@, env_id)
                    && i < self.links.len(),
                None => link_index(self@.links, self@.links.len() as int, path@, env_id) < 0,
            },
    {
        let mut n: usize = self.links.len();
        let ghost ls = self@.links;
        while n > 0
            invariant
                n <= self.links.len(),
                ls == link_views(self.links@),
                link_index(ls, ls.len() as int, path@, env_id) == link_index(
                    ls,
                    n as int,
                    path@,
                    env_id,
                ),
            decreases n,
        {
            assert(ls[n - 1] == self.links@[n - 1]@);
            if self.links[n - 1].env_id == env_id && str_eq(
                self.links[n - 1].project_path.as_str(),
                path,
            ) {
                return Some(n - 1);
            }
            n -= 1;
        }
        None
    }

    /// Links a project directory to an environment, as the user asks.
    ///
    /// With `is_default`, the link becomes the only default of the
    /// directory.
    pub fn associate_project(
        &mut self,
        project_path: &str,
        env_name: &str,
        tag: Option<&str>,
        is_default: bool,
    ) -> (r: Result<(), RegistryError>)
        requires
            old(self)@.wf(),
        ensures
            final(self)@.wf(),
            match r {
                Ok(_) => old(self)@.id_of(env_name@) matches Some(id) && final(self)@ == (
                RegistryView {
                    links: associated(
                        old(self)@.links,
                        project_path@,
                        id,
                        match tag {
                            Some(t) => Some(t@),
                            None => None,
                        },
                        is_default,
                    ),
                    ..old(self)@
                }),
                Err(e) => e == RegistryError::NotFound && old(self)@.id_of(env_name@).is_none()
                    && final(self)@ == old(self)@,
            },
    {
        let id = match self.get_env_id(env_name) {
            Some(id) => id,
            None => {
                return Err(RegistryError::NotFound);
            },
        };
        let ghost before = self@;
        let ghost tag_view = match tag {
            Some(t) => Some(t@),
            None => None,
        };
        proof {
            lemma_env_by_name(before.envs, before.envs.len() as int, env_name@);
            assert(before.envs[env_by_name(before.envs, before.envs.len() as int, env_name@)].id
                == id);
            assert(before.has_env(id));
            lemma_associated(before.links, project_path@, id, tag_view, is_default);
            lemma_links_replaced_wf(
                before,
                associated(before.links, project_path@, id, tag_view, is_default),
                id,
            );
        }
        if is_default {
            let mut k: usize = 0;
            while k < self.links.len()
                invariant
                    k <= self.links.len(),
                    self.links.len() == before.links.len(),
                    self.envs == old(self).envs,
                    self.labels == old(self).labels,
                    self.notes == old(self).notes,
                    self.config == old(self).config,
                    self.next_id == old(self).next_id,
                    forall|j: int|
                        0 <= j < k ==> (#[trigger] self.links@[j])@ == defaults_cleared(
                            before.links,
                            project_path@,
                        )[j],
                    forall|j: int|
                        k <= j < self.links.len() ==> (#[trigger] self.links@[j])@
                            == before.links[j],
                decreases self.links.len() - k,
            {
                if str_eq(self.links[k].project_path.as_str(), project_path) {
                    let mut l = self.links[k].duplicate();
                    l.is_default = false;
                    self.links.set(k, l);
                }
                k += 1;
            }
            assert(link_views(self.links@) =~= defaults_cleared(before.links, project_path@));
        }
        let ghost cleared = self@.links;
        let new_tag = match tag {
            Some(t) => Some(copy_str(t)),
            None => None,
        };
        match self.find_link(project_path, id) {
            Some(i) => {
                assert(cleared[i as int] == self.links@[i as int]@);
                let mut l = self.links[i].duplicate();
                l.tag = new_tag;
                l.is_default = is_default;
                l.link_type = LinkType::User;
                self.links.set(i, l);
                assert(link_views(self.links@) =~= associated(
                    before.links,
                    project_path@,
                    id,
                    tag_view,
                    is_default,
                ));
            },
            None => {
                self.links.push(
                    ProjectLink {
                        project_path: copy_str(project_path),
                        env_id: id,
                        tag: new_tag,
                        is_default,
                        link_type: LinkType::User,
                        activation_count: 0,
                        last_activated_at: None,
                    },
                );
                assert(link_views(self.links@) =~= associated(
                    before.links,
                    project_path@,
                    id,
                    tag_view,
                    is_default,
                ));
            },
        }
        Ok(())
    }

    /// Records that an environment was activated in a directory at the
    /// time `now`: the link counts one activation more, or a link of the
    /// type `Activated` is made.
    pub fn record_activation(&mut self, project_path: &str, env_name: &str, now: i64) -> (r:
        Result<(), RegistryError>)
        requires
            old(self)@.wf(),
        ensures
            final(self)@.wf(),
            match r {
                Ok(_) => old(self)@.id_of(env_name@) matches Some(id) && final(self)@ == (
                RegistryView {
                    links: activated(old(self)@.links, project_path@, id, now),
                    ..old(self)@
                }),
                Err(e) => e == RegistryError::NotFound && old(self)@.id_of(env_name@).is_none()
                    && final(self)@ == old(self)@,
            },
    {
        let id = match self.get_env_id(env_name) {
            Some(id) => id,
            None => {
                return Err(RegistryError::NotFound);
            },
        };
        let ghost before = self@;
        proof {
            lemma_env_by_name(before.envs, before.envs.len() as int, env_name@);
            assert(before.envs[env_by_name(before.envs, before.envs.len() as int, env_name@)].id
                == id);
            assert(before.has_env(id));
            lemma_activated(before.links, project_path@, id, now);
            lemma_links_replaced_wf(before, activated(before.links, project_path@, id, now), id);
        }
        match self.find_link(project_path, id) {
            Some(i) => {
                assert(before.links[i as int] == self.links@[i as int]@);
                let mut l = self.links[i].duplicate();
                if l.activation_count < u64::MAX {
                    l.activation_count = l.activation_count + 1;
                }
                l.last_activated_at = Some(now);
                self.links.set(i, l);
                assert(link_views(self.links@) =~= activated(
                    before.links,
                    project_path@,
                    id,
                    now,
                ));
            },
            None => {
                self.links.push(
                    ProjectLink {
                        project_path: copy_str(project_path),
                        env_id: id,
                        tag: None,
                        is_default: false,
                        link_type: LinkType::Activated,
                        activation_count: 1,
                        last_activated_at: Some(now),
                    },
                );
                assert(link_views(self.links@) =~= activated(
                    before.links,
                    project_path@,
                    id,
                    now,
                ));
            },
        }
        Ok(())
    }

    /// The name of the environment that is the default of a directory.
    pub fn get_default_environment(&self, project_path: &str) -> (r: Option<String>)
        requires
            self@.wf(),
        ensures
            match r {
                Some(name) => {
                    let i = default_index(self@.links, self@.links.len() as int, project_path@);
                    i >= 0 && self@.id_of(name@) == Some(self@.links[i].env_id)
                },
                None => default_index(self@.links, self@.links.len() as int, project_path@) < 0,
            },
    {
        let mut n: usize = self.links.len();
        let ghost ls = self@.links;
        while n > 0
            invariant
                n <= self.links.len(),
                ls == link_views(self.links@),
                self@.wf(),
                default_index(ls, ls.len() as int, project_path@) == default_index(
                    ls,
                    n as int,
                    project_path@,
                ),
            decreases n,
        {
            assert(ls[n - 1] == self.links@[n - 1]@);
            if self.links[n - 1].is_default && str_eq(
                self.links[n - 1].project_path.as_str(),
                project_path,
            ) {
                let id = self.links[n - 1].env_id;
                assert(self@.has_env(id));
                proof {
                    lemma_env_by_id(self@.envs, self@.envs.len() as int, id);
                }
                match self.find_env_by_id(id) {
                    Some(e) => {
                        assert(self@.envs[e as int] == self.envs@[e as int]@);
                        let name = self.envs[e].name.clone();
                        proof {
                            lemma_name_finds_env(self@, e as int);
                        }
                        return Some(name);
                    },
                    None => {
                        assert(false);
                        return None;
                    },
                }
            }
            n -= 1;
        }
        None
    }

    /// Removes the links that `sel` selects. Returns how many were
    /// removed.
    pub fn remove_links(&mut self, sel: &LinkSelector) -> (removed: usize)
        requires
            old(self)@.wf(),
        ensures
            final(self)@.wf(),
            final(self)@ == old(self)@.without_links(sel@),
            removed == old(self)@.links.len() - final(self)@.links.len(),
    {
        let ghost before = self@;
        proof {
            lemma_without_links_wf(before, sel@);
            before.links.lemma_filter_len(not_selected(sel@));
        }
        let kept = filter_links(&self.links, sel);
        let removed = self.links.len() - kept.len();
        self.links = kept;
        removed
    }

    /// The value of a configuration key.
    pub fn get_config(&self, key: &str) -> (r: Option<String>)
        ensures
            opt_str_view(r) == config_value(self@.config, key@),
    {
        match self.find_config(key) {
            Some(i) => {
                assert(self@.config[i as int] == self.config@[i as int]@);
                Some(self.config[i].value.clone())
            },
            None => None,
        }
    }

    fn find_config(&self, key: &str) -> (r: Option<usize>)
        ensures
            match r {
                Some(i) => i == config_index(self@.config, self@.config.len() as int, key@) && i
                    < self.config.len(),
                None => config_index(self@.config, self@.config.len() as int, key@) < 0,
            },
    {
        let mut n: usize = self.config.len();
        let ghost cs = self@.config;
        while n > 0
            invariant
                n <= self.config.len(),
                cs == config_views(self.config@),
                config_index(cs, cs.len() as int, key@) == config_index(cs, n as int, key@),
            decreases n,
        {
            assert(cs[n - 1] == self.config@[n - 1]@);
            if str_eq(self.config[n - 1].key.as_str(), key) {
                return Some(n - 1);
            }
            n -= 1;
        }
        None
    }

    /// Sets the value of a configuration key.
    pub fn set_config(&mut self, key: &str, value: &str)
        requires
            old(self)@.wf(),
        ensures
            final(self)@.wf(),
            final(self)@ == (RegistryView {
                config: config_with(old(self)@.config, key@, value@),
                ..old(self)@
            }),
            config_value(final(self)@.config, key@) == Some(value@),
    {
        let ghost before = self@;
        proof {
            lemma_config_with(before, key@, value@);
        }
        let entry = ConfigEntry { key: copy_str(key), value: copy_str(value) };
        match self.find_config(key) {
            Some(i) => {
                self.config.set(i, entry);
                assert(config_views(self.config@) =~= config_with(before.config, key@, value@));
            },
            None => {
                self.config.push(entry);
                assert(config_views(self.config@) =~= config_with(before.config, key@, value@));
            },
        }
    }

    /// The configuration entries, in the ascending order of their keys.
    pub fn list_all_config(&self) -> (r: Vec<ConfigEntry>)
        ensures
            config_views(r@) == config_by_key(self@.config),
    {
        let mut keys: Vec<SortKey> = Vec::new();
        let mut j: usize = 0;
        while j < self.config.len()
            invariant
                j <= self.config.len(),
                keys.len() == j,
                forall|k: int|
                    0 <= k < j ==> (#[trigger] keys@[k])@ == KeyView::Text(self.config@[k].key@),
            decreases self.config.len() - j,
        {
            keys.push(SortKey::Text(crate::text::chars_of(self.config[j].key.as_str())));
            j += 1;
        }
        assert(key_views(keys@) =~= text_keys(config_keys(self@.config)));
        let order = sort_by_key(&keys, false);
        let mut out: Vec<ConfigEntry> = Vec::new();
        let mut k: usize = 0;
        while k < order.len()
            invariant
                k <= order.len(),
                out.len() == k,
                forall|i: int| 0 <= i < order.len() ==> #[trigger] order@[i] < self.config.len(),
                forall|i: int|
                    0 <= i < k ==> (#[trigger] out@[i])@ == self.config@[order@[i] as int]@,
            decreases order.len() - k,
        {
            let c = &self.config[order[k]];
            out.push(ConfigEntry { key: c.key.clone(), value: c.value.clone() });
            k += 1;
        }
        assert(config_views(out@) =~= config_by_key(self@.config));
        out
    }

    /// The configuration entries, in the order in which their keys were
    /// first set.
    pub fn config(&self) -> (r: &Vec<ConfigEntry>)
        ensures
            config_views(r@) == self@.config,
    {
        &self.config
    }

    /// The links, in the order in which they were made.
    pub fn links(&self) -> (r: &Vec<ProjectLink>)
        ensures
            link_views(r@) == self@.links,
    {
        &self.links
    }
}

/// In a registry that keeps its rules, the name of an environment finds
/// that environment.
pub proof fn lemma_name_finds_env(v: RegistryView, e: int)
    requires
        v.wf(),
        0 <= e < v.envs.len(),
    ensures
        v.id_of(v.envs[e].name) == Some(v.envs[e].id),
{
    lemma_env_by_name(v.envs, v.envs.len() as int, v.envs[e].name);
    let i = env_by_name(v.envs, v.envs.len() as int, v.envs[e].name);
    if i != e {
        if i < 0 {
            assert(v.envs[e].name != v.envs[e].name);
        } else if i < e {
            assert(v.envs[i].name != v.envs[e].name);
        } else {
            assert(v.envs[e].name != v.envs[i].name);
        }
    }
}

/// Setting a configuration key keeps the rules of the registry, and the
/// key has the value afterwards.
pub proof fn lemma_config_with(v: RegistryView, key: Seq<char>, value: Seq<char>)
    requires
        v.wf(),
    ensures
        (RegistryView { config: config_with(v.config, key, value), ..v }).wf(),
        config_value(config_with(v.config, key, value), key) == Some(value),
{
    let r = RegistryView { config: config_with(v.config, key, value), ..v };
    lemma_config_index(v.config, v.config.len() as int, key);
    lemma_config_index(r.config, r.config.len() as int, key);
    let c = config_index(v.config, v.config.len() as int, key);
    let i = config_index(r.config, r.config.len() as int, key);
    assert forall|k: int| 0 <= k < r.labels.len() implies r.has_env(
        (#[trigger] r.labels[k]).env_id,
    ) by {
        assert(v.has_env(v.labels[k].env_id));
        lemma_has_env_same(v, r, v.labels[k].env_id);
    }
    assert forall|k: int| 0 <= k < r.links.len() implies r.has_env(
        (#[trigger] r.links[k]).env_id,
    ) by {
        assert(v.has_env(v.links[k].env_id));
        lemma_has_env_same(v, r, v.links[k].env_id);
    }
    assert forall|a: int, b: int| 0 <= a < b < r.config.len() implies (#[trigger] r.config[a]).key
        != (#[trigger] r.config[b]).key by {
        if b < v.config.len() {
            assert(v.config[a].key != v.config[b].key);
        }
    }
    if c >= 0 {
        assert(r.config[c].key == key);
        if i != c {
            if i < 0 {
                assert(r.config[c].key != key);
            } else if i < c {
                assert(r.config[i].key != r.config[c].key);
            } else {
                assert(r.config[c].key != r.config[i].key);
            }
        }
    } else {
        assert(r.config[v.config.len() as int].key == key);
        if i != v.config.len() {
            if i < 0 {
                assert(r.config[v.config.len() as int].key != key);
            } else {
                assert(r.config[i].key != r.config[v.config.len() as int].key);
            }
        }
    }
}

/// Links that are unique and belong to registered environments can take
/// the place of the links of a registry.
proof fn lemma_links_replaced_wf(v: RegistryView, links: Seq<LinkView>, id: u64)
    requires
        v.wf(),
        v.has_env(id),
        links_unique(links),
        v.links.len() <= links.len() <= v.links.len() + 1,
        forall|k: int| 0 <= k < v.links.len() ==> (#[trigger] links[k]).env_id == v.links[k].env_id,
        links.len() > v.links.len() ==> links[v.links.len() as int].env_id == id,
    ensures
        (RegistryView { links, ..v }).wf(),
{
    let r = RegistryView { links, ..v };
    assert forall|k: int| 0 <= k < r.labels.len() implies r.has_env(
        (#[trigger] r.labels[k]).env_id,
    ) by {
        assert(v.has_env(v.labels[k].env_id));
        lemma_has_env_same(v, r, v.labels[k].env_id);
    }
    assert forall|k: int| 0 <= k < r.links.len() implies r.has_env(
        (#[trigger] r.links[k]).env_id,
    ) by {
        if k < v.links.len() {
            assert(v.has_env(v.links[k].env_id));
            lemma_has_env_same(v, r, v.links[k].env_id);
        } else {
            lemma_has_env_same(v, r, id);
        }
    }
}


/// A link that may be chosen when an environment is activated, with the
/// name and the path of its environment.
#[derive(Debug, Clone)]
pub struct Candidate {
    pub env_name: String,
    pub env_path: String,
    pub project_path: String,
    pub tag: Option<String>,
    pub activation_count: u64,
    pub link_type: LinkType,
    pub is_default: bool,
    pub last_activated_at: Option<i64>,
}

/// A candidate, as characters.
pub struct CandidateView {
    pub env_name: Seq<char>,
    pub env_path: Seq<char>,
    pub project_path: Seq<char>,
    pub tag: Option<Seq<char>>,
    pub activation_count: u64,
    pub link_type: LinkType,
    pub is_default: bool,
    pub last_activated_at: Option<i64>,
}

impl View for Candidate {
    type V = CandidateView;

    open spec fn view(&self) -> CandidateView {
        CandidateView {
            env_name: self.env_name@,
            env_path: self.env_path@,
            project_path: self.project_path@,
            tag: opt_str_view(self.tag),
            activation_count: self.activation_count,
            link_type: self.link_type,
            is_default: self.is_default,
            last_activated_at: self.last_activated_at,
        }
    }
}

impl Candidate {
    /// A copy of the candidate.
    pub fn duplicate(&self) -> (r: Candidate)
        ensures
            r@ == self@,
    {
        Candidate {
            env_name: self.env_name.clone(),
            env_path: self.env_path.clone(),
            project_path: self.project_path.clone(),
            tag: clone_opt_string(&self.tag),
            activation_count: self.activation_count,
            link_type: self.link_type,
            is_default: self.is_default,
            last_activated_at: self.last_activated_at,
        }
    }
}

/// The views of a sequence of candidates.
pub open spec fn candidate_views(v: Seq<Candidate>) -> Seq<CandidateView> {
    Seq::new(v.len(), |i: int| v[i]@)
}

/// Whether `a` was activated later than `b`; never activated is earliest.
pub open spec fn later(a: Option<i64>, b: Option<i64>) -> bool {
    match (a, b) {
        (Some(x), Some(y)) => x > y,
        (Some(_), None) => true,
        _ => false,
    }
}

/// Whether the candidate `a` ranks strictly before `b`: a default before
/// the others, then the one activated more often, then the one activated
/// later.
pub open spec fn outranks(a: CandidateView, b: CandidateView) -> bool {
    if a.is_default != b.is_default {
        a.is_default
    } else if a.activation_count != b.activation_count {
        a.activation_count > b.activation_count
    } else {
        later(a.last_activated_at, b.last_activated_at)
    }
}

/// The place at which `x` goes into the ranked candidates `s`, looked
/// for from `k` on: before the first candidate that it outranks.
pub open spec fn rank_position(s: Seq<CandidateView>, x: CandidateView, k: int) -> int
    decreases s.len() - k,
{
    if k < 0 || k >= s.len() {
        s.len() as int
    } else if outranks(x, s[k]) {
        k
    } else {
        rank_position(s, x, k + 1)
    }
}

/// The first `n` candidates in the order of their rank. Candidates of
/// one rank stay in the order in which they stand.
pub open spec fn ranked(c: Seq<CandidateView>, n: int) -> Seq<CandidateView>
    decreases n,
{
    if n <= 0 {
        Seq::empty()
    } else {
        let prev = ranked(c, n - 1);
        prev.insert(rank_position(prev, c[n - 1], 0), c[n - 1])
    }
}

/// Whether no candidate stands behind one that it outranks.
pub open spec fn in_rank_order(s: Seq<CandidateView>) -> bool {
    forall|i: int, j: int| 0 <= i < j < s.len() ==> !outranks(#[trigger] s[j], #[trigger] s[i])
}

proof fn lemma_rank_position(s: Seq<CandidateView>, x: CandidateView, k: int)
    requires
        0 <= k <= s.len(),
    ensures
        k <= rank_position(s, x, k) <= s.len(),
        rank_position(s, x, k) < s.len() ==> outranks(x, s[rank_position(s, x, k)]),
        forall|j: int| k <= j < rank_position(s, x, k) ==> !outranks(x, #[trigger] s[j]),
    decreases s.len() - k,
{
    if k < s.len() && !outranks(x, s[k]) {
        lemma_rank_position(s, x, k + 1);
    }
}

/// Ranking puts the candidates in the order of their rank and neither
/// adds nor drops one.
pub proof fn lemma_ranked(c: Seq<CandidateView>, n: int)
    requires
        0 <= n <= c.len(),
    ensures
        in_rank_order(ranked(c, n)),
        ranked(c, n).len() == n,
        ranked(c, n).to_multiset() == c.take(n).to_multiset(),
    decreases n,
{
    if n > 0 {
        lemma_ranked(c, n - 1);
        let prev = ranked(c, n - 1);
        let x = c[n - 1];
        let p = rank_position(prev, x, 0);
        lemma_rank_position(prev, x, 0);
        let r = prev.insert(p, x);
        assert forall|i: int, j: int| 0 <= i < j < r.len() implies !outranks(
            #[trigger] r[j],
            #[trigger] r[i],
        ) by {
            if j < p {
                assert(r[i] == prev[i] && r[j] == prev[j]);
            } else if j == p {
                assert(r[i] == prev[i]);
            } else if i < p {
                assert(r[i] == prev[i] && r[j] == prev[j - 1]);
            } else if i == p {
                assert(r[j] == prev[j - 1]);
                if j - 1 > p {
                    assert(!outranks(prev[j - 1], prev[p]));
                }
            } else {
                assert(r[i] == prev[i - 1] && r[j] == prev[j - 1]);
            }
        }
        vstd::seq_lib::to_multiset_insert(prev, p, x);
        assert(c.take(n) == c.take(n - 1).push(x));
        vstd::seq_lib::to_multiset_build(c.take(n - 1), x);
    } else {
        assert(c.take(0) =~= Seq::<CandidateView>::empty());
    }
}

/// Which project directories a query asks for.
#[derive(Debug, Clone)]
pub enum PathQuery {
    /// The directory itself.
    Exact(String),
    /// The directories below a directory, at most so many levels down.
    Below(String, usize),
    /// The directory itself and the directories below it, at most so
    /// many levels down.
    Within(String, usize),
    /// Each of these directories.
    AnyOf(Vec<String>),
}

/// How many of the first `n` pieces are not empty.
pub open spec fn filled(pieces: Seq<Seq<char>>, n: int) -> nat
    decreases n,
{
    if n <= 0 {
        0
    } else if pieces[n - 1].len() > 0 {
        filled(pieces, n - 1) + 1
    } else {
        filled(pieces, n - 1)
    }
}

/// The directory `base` as a prefix: without trailing `/`, and one `/`.
pub open spec fn dir_prefix(base: Seq<char>) -> Seq<char> {
    strip_end(base, CharClass::Only('/')) + seq!['/']
}

/// Whether `path` lies below `base`, at most `max_depth` levels down.
pub open spec fn is_below(path: Seq<char>, base: Seq<char>, max_depth: nat) -> bool {
    let prefix = dir_prefix(base);
    let pieces = split(path.skip(prefix.len() as int), '/');
    starts_with(path, prefix) && filled(pieces, pieces.len() as int) <= max_depth
}

/// A query, as characters.
pub enum QueryView {
    Exact(Seq<char>),
    Below(Seq<char>, usize),
    Within(Seq<char>, usize),
    AnyOf(Seq<Seq<char>>),
}

impl View for PathQuery {
    type V = QueryView;

    open spec fn view(&self) -> QueryView {
        match self {
            PathQuery::Exact(p) => QueryView::Exact(p@),
            PathQuery::Below(base, depth) => QueryView::Below(base@, *depth),
            PathQuery::Within(base, depth) => QueryView::Within(base@, *depth),
            PathQuery::AnyOf(paths) => QueryView::AnyOf(crate::text::string_views(paths@)),
        }
    }
}

impl QueryView {
    /// Whether the query asks for the directory `path`.
    pub open spec fn asks_for(self, path: Seq<char>) -> bool {
        match self {
            QueryView::Exact(p) => path == p,
            QueryView::Below(base, depth) => is_below(path, base, depth as nat),
            QueryView::Within(base, depth) => path == base || is_below(path, base, depth as nat),
            QueryView::AnyOf(paths) => paths.contains(path),
        }
    }
}

fn holds_text(texts: &Vec<String>, t: &str) -> (b: bool)
    ensures
        b == crate::text::string_views(texts@).contains(t@),
{
    let ghost ts = crate::text::string_views(texts@);
    let mut i: usize = 0;
    while i < texts.len()
        invariant
            i <= texts.len(),
            ts == crate::text::string_views(texts@),
            forall|j: int| 0 <= j < i ==> ts[j] != t@,
        decreases texts.len() - i,
    {
        assert(ts[i as int] == texts@[i as int]@);
        if str_eq(texts[i].as_str(), t) {
            return true;
        }
        i += 1;
    }
    false
}

impl PathQuery {
    /// Whether the query asks for the directory `path`.
    pub fn matches(&self, path: &str) -> (b: bool)
        ensures
            b == self@.asks_for(path@),
    {
        match self {
            PathQuery::Exact(p) => str_eq(path, p.as_str()),
            PathQuery::Below(base, depth) => below(path, base.as_str(), *depth),
            PathQuery::Within(base, depth) => str_eq(path, base.as_str()) || below(
                path,
                base.as_str(),
                *depth,
            ),
            PathQuery::AnyOf(paths) => holds_text(paths, path),
        }
    }
}

/// Whether `path` lies below `base`, at most `max_depth` levels down:
/// it starts with `base/`, and what follows has at most `max_depth`
/// components.
pub fn below(path: &str, base: &str, max_depth: usize) -> (b: bool)
    ensures
        b == is_below(path@, base@, max_depth as nat),
{
    let p = chars_of(path);
    let mut prefix = strip_end_of(&chars_of(base), CharClass::Only('/'));
    prefix.push('/');
    assert(prefix@ == dir_prefix(base@));
    if !has_prefix(&p, &prefix) {
        return false;
    }
    let rest = slice(&p, prefix.len(), p.len());
    let pieces = split_of(&rest, '/');
    let mut count: usize = 0;
    let mut i: usize = 0;
    while i < pieces.len()
        invariant
            i <= pieces.len(),
            count == filled(views(pieces@), i as int),
            count <= i,
        decreases pieces.len() - i,
    {
        assert(views(pieces@)[i as int] == pieces@[i as int]@);
        if pieces[i].len() > 0 {
            count += 1;
        }
        i += 1;
    }
    count <= max_depth
}

/// The candidate that the link `l` stands for: the link with the name
/// and the path of its environment.
pub open spec fn candidate_of(v: RegistryView, l: LinkView) -> CandidateView {
    let e = env_by_id(v.envs, v.envs.len() as int, l.env_id);
    CandidateView {
        env_name: v.envs[e].name,
        env_path: v.envs[e].path,
        project_path: l.project_path,
        tag: l.tag,
        activation_count: l.activation_count,
        link_type: l.link_type,
        is_default: l.is_default,
        last_activated_at: l.last_activated_at,
    }
}

/// The candidates for those of the first `n` links whose directory the
/// query asks for, in the order of the links.
pub open spec fn matching(v: RegistryView, q: QueryView, n: int) -> Seq<CandidateView>
    decreases n,
{
    if n <= 0 {
        Seq::empty()
    } else if q.asks_for(v.links[n - 1].project_path) {
        matching(v, q, n - 1).push(candidate_of(v, v.links[n - 1]))
    } else {
        matching(v, q, n - 1)
    }
}

/// The candidates that a query finds, in the order of their rank.
pub open spec fn found(v: RegistryView, q: QueryView) -> Seq<CandidateView> {
    ranked(
        matching(v, q, v.links.len() as int),
        matching(v, q, v.links.len() as int).len() as int,
    )
}

fn outranks_of(a: &Candidate, b: &Candidate) -> (r: bool)
    ensures
        r == outranks(a@, b@),
{
    if a.is_default != b.is_default {
        a.is_default
    } else if a.activation_count != b.activation_count {
        a.activation_count > b.activation_count
    } else {
        match (a.last_activated_at, b.last_activated_at) {
            (Some(x), Some(y)) => x > y,
            (Some(_), None) => true,
            _ => false,
        }
    }
}

/// Puts candidates in the order of their rank: a default first, then by
/// the number of activations, then by the time of the last activation.
pub fn rank_candidates(c: &Vec<Candidate>) -> (r: Vec<Candidate>)
    ensures
        candidate_views(r@) == ranked(candidate_views(c@), c.len() as int),
        in_rank_order(candidate_views(r@)),
        r.len() == c.len(),
        candidate_views(r@).to_multiset() == candidate_views(c@).to_multiset(),
{
    let mut r: Vec<Candidate> = Vec::new();
    let ghost cv = candidate_views(c@);
    let mut n: usize = 0;
    proof {
        assert(candidate_views(r@) =~= ranked(cv, 0));
    }
    while n < c.len()
        invariant
            n <= c.len(),
            cv == candidate_views(c@),
            candidate_views(r@) == ranked(cv, n as int),
            r.len() == n,
        decreases c.len() - n,
    {
        assert(cv[n as int] == c@[n as int]@);
        let x = c[n].duplicate();
        let ghost prev = candidate_views(r@);
        let mut k: usize = 0;
        while k < r.len() && !outranks_of(&x, &r[k])
            invariant
                k <= r.len(),
                prev == candidate_views(r@),
                rank_position(prev, x@, 0) == rank_position(prev, x@, k as int),
            decreases r.len() - k,
        {
            assert(prev[k as int] == r@[k as int]@);
            k += 1;
        }
        proof {
            if k < r.len() {
                assert(prev[k as int] == r@[k as int]@);
            }
        }
        r.insert(k, x);
        assert(candidate_views(r@) =~= prev.insert(k as int, x@));
        n += 1;
    }
    proof {
        lemma_ranked(cv, c.len() as int);
        assert(cv.take(c.len() as int) == cv);
    }
    r
}

impl Registry {
    /// The candidates for the links whose directory the query asks for,
    /// in the order of their rank.
    pub fn find_candidates(&self, q: &PathQuery) -> (r: Vec<Candidate>)
        requires
            self@.wf(),
        ensures
            candidate_views(r@) == found(self@, q@),
            in_rank_order(candidate_views(r@)),
    {
        let mut c: Vec<Candidate> = Vec::new();
        let ghost v = self@;
        let mut i: usize = 0;
        proof {
            assert(candidate_views(c@) =~= matching(v, q@, 0));
        }
        while i < self.links.len()
            invariant
                i <= self.links.len(),
                v == self@,
                v.wf(),
                candidate_views(c@) == matching(v, q@, i as int),
            decreases self.links.len() - i,
        {
            assert(v.links[i as int] == self.links@[i as int]@);
            let l = &self.links[i];
            if q.matches(l.project_path.as_str()) {
                assert(v.has_env(l.env_id));
                proof {
                    lemma_env_by_id(v.envs, v.envs.len() as int, l.env_id);
                }
                match self.find_env_by_id(l.env_id) {
                    Some(e) => {
                        assert(v.envs[e as int] == self.envs@[e as int]@);
                        let cand = Candidate {
                            env_name: self.envs[e].name.clone(),
                            env_path: self.envs[e].path.clone(),
                            project_path: l.project_path.clone(),
                            tag: clone_opt_string(&l.tag),
                            activation_count: l.activation_count,
                            link_type: l.link_type,
                            is_default: l.is_default,
                            last_activated_at: l.last_activated_at,
                        };
                        assert(candidate_views(c@.push(cand)) =~= candidate_views(c@).push(cand@));
                        c.push(cand);
                    },
                    None => {
                        assert(false);
                    },
                }
            }
            i += 1;
        }
        rank_candidates(&c)
    }

    /// The candidates linked to one of the directories `paths`, in the
    /// order of their rank. A link gives one candidate, however often
    /// its directory is named.
    pub fn get_activation_candidates(&self, paths: &Vec<String>) -> (r: Vec<Candidate>)
        requires
            self@.wf(),
        ensures
            candidate_views(r@) == found(
                self@,
                QueryView::AnyOf(crate::text::string_views(paths@)),
            ),
            in_rank_order(candidate_views(r@)),
    {
        let q = PathQuery::AnyOf(copy_texts(paths));
        self.find_candidates(&q)
    }

    /// The candidates linked to directories below `base_path`, at most
    /// `max_depth` levels down, in the order of their rank.
    pub fn get_subfolder_candidates(&self, base_path: &str, max_depth: usize) -> (r: Vec<Candidate>)
        requires
            self@.wf(),
        ensures
            candidate_views(r@) == found(self@, QueryView::Below(base_path@, max_depth)),
            in_rank_order(candidate_views(r@)),
    {
        let q = PathQuery::Below(copy_str(base_path), max_depth);
        self.find_candidates(&q)
    }
}

/// Appends copies of the candidates `more` to `out`.
pub fn append_candidates(out: &mut Vec<Candidate>, more: &Vec<Candidate>)
    ensures
        candidate_views(final(out)@) == candidate_views(old(out)@) + candidate_views(more@),
{
    let ghost before = candidate_views(out@);
    let mut i: usize = 0;
    proof {
        assert(candidate_views(out@) =~= before + candidate_views(more@).take(0));
    }
    while i < more.len()
        invariant
            i <= more.len(),
            candidate_views(out@) == before + candidate_views(more@).take(i as int),
        decreases more.len() - i,
    {
        let c = more[i].duplicate();
        assert(candidate_views(more@)[i as int] == c@);
        assert(candidate_views(out@.push(c)) =~= candidate_views(out@).push(c@));
        assert(candidate_views(more@).take(i + 1) =~= candidate_views(more@).take(i as int).push(
            c@,
        ));
        assert(candidate_views(out@).push(c@) =~= before + candidate_views(more@).take(i + 1));
        out.push(c);
        i += 1;
    }
    assert(candidate_views(more@).take(more.len() as int) == candidate_views(more@));
}

/// The index of the note with the identifier `uuid` among the first `n`
/// notes, or -1.
pub open spec fn note_index(notes: Seq<NoteView>, n: int, uuid: Seq<char>) -> int
    decreases n,
{
    if n <= 0 {
        -1
    } else if notes[n - 1].uuid == uuid {
        n - 1
    } else {
        note_index(notes, n - 1, uuid)
    }
}

/// The search for a note finds a note with the identifier, or there
/// is none among those searched.
pub proof fn lemma_note_index(notes: Seq<NoteView>, n: int, uuid: Seq<char>)
    requires
        0 <= n <= notes.len(),
    ensures
        -1 <= note_index(notes, n, uuid) < n,
        note_index(notes, n, uuid) >= 0 ==> notes[note_index(notes, n, uuid)].uuid == uuid,
        note_index(notes, n, uuid) < 0 ==> forall|i: int|
            0 <= i < n ==> (#[trigger] notes[i]).uuid != uuid,
    decreases n,
{
    if n > 0 && notes[n - 1].uuid != uuid {
        lemma_note_index(notes, n - 1, uuid);
    }
}

/// The notes whose identifier does not start with `prefix`.
pub open spec fn note_outside(prefix: Seq<char>) -> spec_fn(NoteView) -> bool {
    |n: NoteView| !starts_with(n.uuid, prefix)
}

/// Whether a note is asked for: it is on the directory `path`, where
/// one is given, and about the environment `env_id`, where one is
/// given.
pub open spec fn note_asked(n: NoteView, path: Option<Seq<char>>, env_id: Option<u64>) -> bool {
    (path matches Some(p) ==> n.project_path == p) && (env_id matches Some(e) ==> n.env_id
        == Some(e))
}

/// Those of the first `n` notes that are asked for.
pub open spec fn notes_asked(
    notes: Seq<NoteView>,
    path: Option<Seq<char>>,
    env_id: Option<u64>,
    n: int,
) -> Seq<NoteView>
    decreases n,
{
    if n <= 0 {
        Seq::empty()
    } else if note_asked(notes[n - 1], path, env_id) {
        notes_asked(notes, path, env_id, n - 1).push(notes[n - 1])
    } else {
        notes_asked(notes, path, env_id, n - 1)
    }
}

/// The times of notes as sort keys.
pub open spec fn note_keys(notes: Seq<NoteView>) -> Seq<KeyView> {
    Seq::new(notes.len(), |i: int| KeyView::Number(notes[i].created_at))
}

/// The notes that are asked for, the latest first.
pub open spec fn notes_listed(notes: Seq<NoteView>, path: Option<Seq<char>>, env_id: Option<u64>) -> Seq<
    NoteView,
> {
    let asked = notes_asked(notes, path, env_id, notes.len() as int);
    let order = sorted_order(note_keys(asked), asked.len() as int, true);
    Seq::new(order.len(), |i: int| asked[order[i] as int])
}

/// Which version of the layout of the stored registry this library
/// writes.
pub const CURRENT_SCHEMA: i32 = 4;

/// How the version of a stored registry stands to `CURRENT_SCHEMA`.
#[derive(Debug, Clone, Copy, PartialEq, Eq, Structural)]
pub enum SchemaStatus {
    /// The stored registry has the current version.
    Current,
    /// The stored registry was older, and was brought up to date.
    Upgraded { from: i32 },
    /// The stored registry is newer than this library; it is used as far
    /// as it goes.
    Ahead { stored: i32 },
}

/// The version that a stored registry has: the number under the key
/// `schema_version`, and 1 where there is none.
pub open spec fn stored_schema(config: Seq<ConfigView>) -> int {
    match config_value(config, "schema_version"@) {
        Some(v) => match parse_signed(v, i32::MIN as int, i32::MAX as int) {
            Some(n) => n,
            None => 1,
        },
        None => 1,
    }
}

/// Whether resetting the history changes a link: it has a history, and,
/// where a time is given, was last activated before it.
pub open spec fn history_affected(l: LinkView, before: Option<i64>) -> bool {
    (l.activation_count > 0 || l.last_activated_at.is_some()) && (match before {
        None => true,
        Some(t) => match l.last_activated_at {
            Some(at) => at < t,
            None => false,
        },
    })
}

/// The links with the history of activations reset: no activation is
/// counted and none is remembered.
pub open spec fn history_reset(links: Seq<LinkView>, before: Option<i64>) -> Seq<LinkView> {
    Seq::new(
        links.len(),
        |i: int|
            if history_affected(links[i], before) {
                LinkView { activation_count: 0, last_activated_at: None, ..links[i] }
            } else {
                links[i]
            },
    )
}

/// How many of the first `n` links a reset of the history changes.
pub open spec fn affected_count(links: Seq<LinkView>, before: Option<i64>, n: int) -> nat
    decreases n,
{
    if n <= 0 {
        0
    } else if history_affected(links[n - 1], before) {
        affected_count(links, before, n - 1) + 1
    } else {
        affected_count(links, before, n - 1)
    }
}

/// The index of the link among the first `n` that was activated last,
/// or -1 where none was activated; of links activated at the same time,
/// the first.
pub open spec fn latest_link(links: Seq<LinkView>, n: int) -> int
    decreases n,
{
    if n <= 0 {
        -1
    } else {
        let prev = latest_link(links, n - 1);
        if links[n - 1].last_activated_at.is_some() && (prev < 0 || later(
            links[n - 1].last_activated_at,
            links[prev].last_activated_at,
        )) {
            n - 1
        } else {
            prev
        }
    }
}

proof fn lemma_latest_link(links: Seq<LinkView>, n: int)
    requires
        0 <= n <= links.len(),
    ensures
        -1 <= latest_link(links, n) < n,
        latest_link(links, n) >= 0 ==> links[latest_link(links, n)].last_activated_at.is_some(),
    decreases n,
{
    if n > 0 {
        lemma_latest_link(links, n - 1);
    }
}

impl Registry {
    fn find_note(&self, uuid: &str) -> (r: Option<usize>)
        ensures
            match r {
                Some(i) => i == note_index(self@.notes, self@.notes.len() as int, uuid@) && i
                    < self.notes.len(),
                None => note_index(self@.notes, self@.notes.len() as int, uuid@) < 0,
            },
    {
        let mut n: usize = self.notes.len();
        let ghost ns = self@.notes;
        while n > 0
            invariant
                n <= self.notes.len(),
                ns == note_views(self.notes@),
                note_index(ns, ns.len() as int, uuid@) == note_index(ns, n as int, uuid@),
            decreases n,
        {
            assert(ns[n - 1] == self.notes@[n - 1]@);
            if str_eq(self.notes[n - 1].uuid.as_str(), uuid) {
                return Some(n - 1);
            }
            n -= 1;
        }
        None
    }

    /// Adds a note on a project directory and, where `env_id` is given,
    /// about an environment. The caller supplies the identifier of the
    /// note and the time.
    pub fn add_comment(
        &mut self,
        uuid: &str,
        project_path: &str,
        env_id: Option<u64>,
        message: &str,
        tag: Option<&str>,
        now: i64,
    ) -> (r: Result<(), RegistryError>)
        requires
            old(self)@.wf(),
        ensures
            final(self)@.wf(),
            match r {
                Ok(_) => note_index(old(self)@.notes, old(self)@.notes.len() as int, uuid@) < 0
                    && (env_id matches Some(e) ==> old(self)@.has_env(e)) && final(self)@ == (
                RegistryView {
                    notes: old(self)@.notes.push(
                        NoteView {
                            uuid: uuid@,
                            project_path: project_path@,
                            env_id,
                            message: message@,
                            tag: match tag {
                                Some(t) => Some(t@),
                                None => None,
                            },
                            created_at: now,
                        },
                    ),
                    ..old(self)@
                }),
                Err(e) => final(self)@ == old(self)@ && (if note_index(
                    old(self)@.notes,
                    old(self)@.notes.len() as int,
                    uuid@,
                ) >= 0 {
                    e == RegistryError::UuidTaken
                } else {
                    e == RegistryError::NotFound && env_id.is_some() && !old(self)@.has_env(
                        env_id.unwrap(),
                    )
                }),
            },
    {
        let ghost before = self@;
        if self.find_note(uuid).is_some() {
            return Err(RegistryError::UuidTaken);
        }
        match env_id {
            Some(e) => {
                proof {
                    lemma_has_env_iff(before, e);
                }
                if self.find_env_by_id(e).is_none() {
                    return Err(RegistryError::NotFound);
                }
            },
            None => {},
        }
        proof {
            lemma_note_index(before.notes, before.notes.len() as int, uuid@);
        }
        let note = Note {
            uuid: copy_str(uuid),
            project_path: copy_str(project_path),
            env_id,
            message: copy_str(message),
            tag: match tag {
                Some(t) => Some(copy_str(t)),
                None => None,
            },
            created_at: now,
        };
        self.notes.push(note);
        assert(note_views(self.notes@) =~= before.notes.push(note@));
        proof {
            let r = self@;
            assert forall|k: int| 0 <= k < r.labels.len() implies r.has_env(
                (#[trigger] r.labels[k]).env_id,
            ) by {
                assert(before.has_env(before.labels[k].env_id));
                lemma_has_env_same(before, r, before.labels[k].env_id);
            }
            assert forall|k: int| 0 <= k < r.links.len() implies r.has_env(
                (#[trigger] r.links[k]).env_id,
            ) by {
                assert(before.has_env(before.links[k].env_id));
                lemma_has_env_same(before, r, before.links[k].env_id);
            }
            assert forall|a: int, b: int| 0 <= a < b < r.notes.len() implies (
            #[trigger] r.notes[a]).uuid != (#[trigger] r.notes[b]).uuid by {
                if b < before.notes.len() {
                    assert(before.notes[a].uuid != before.notes[b].uuid);
                }
            }
        }
        Ok(())
    }

    /// The notes on the directory `project_path`, where one is given,
    /// and about the environment `env_id`, where one is given; the
    /// latest first.
    pub fn list_comments(&self, project_path: Option<&str>, env_id: Option<u64>) -> (r: Vec<Note>)
        ensures
            note_views(r@) == notes_listed(
                self@.notes,
                match project_path {
                    Some(p) => Some(p@),
                    None => None,
                },
                env_id,
            ),
    {
        let ghost path = match project_path {
            Some(p) => Some(p@),
            None => None,
        };
        let ghost ns = self@.notes;
        let mut asked: Vec<Note> = Vec::new();
        let mut i: usize = 0;
        proof {
            assert(note_views(asked@) =~= notes_asked(ns, path, env_id, 0));
        }
        while i < self.notes.len()
            invariant
                i <= self.notes.len(),
                ns == note_views(self.notes@),
                path == (match project_path {
                    Some(p) => Some(p@),
                    None => None,
                }),
                note_views(asked@) == notes_asked(ns, path, env_id, i as int),
            decreases self.notes.len() - i,
        {
            assert(ns[i as int] == self.notes@[i as int]@);
            let n = &self.notes[i];
            let path_ok = match project_path {
                Some(p) => str_eq(n.project_path.as_str(), p),
                None => true,
            };
            let env_ok = match env_id {
                Some(e) => match n.env_id {
                    Some(x) => x == e,
                    None => false,
                },
                None => true,
            };
            if path_ok && env_ok {
                let c = n.duplicate();
                assert(note_views(asked@.push(c)) =~= note_views(asked@).push(c@));
                asked.push(c);
            }
            i += 1;
        }
        let mut keys: Vec<SortKey> = Vec::new();
        let mut j: usize = 0;
        while j < asked.len()
            invariant
                j <= asked.len(),
                keys.len() == j,
                forall|k: int|
                    0 <= k < j ==> (#[trigger] keys@[k])@ == KeyView::Number(
                        asked@[k].created_at,
                    ),
            decreases asked.len() - j,
        {
            keys.push(SortKey::Number(asked[j].created_at));
            j += 1;
        }
        assert(key_views(keys@) =~= note_keys(note_views(asked@)));
        let order = sort_by_key(&keys, true);
        let mut out: Vec<Note> = Vec::new();
        let mut k: usize = 0;
        while k < order.len()
            invariant
                k <= order.len(),
                out.len() == k,
                forall|i: int| 0 <= i < order.len() ==> #[trigger] order@[i] < asked.len(),
                forall|i: int| 0 <= i < k ==> (#[trigger] out@[i])@ == asked@[order@[i] as int]@,
            decreases order.len() - k,
        {
            out.push(asked[order[k]].duplicate());
            k += 1;
        }
        assert(note_views(out@) =~= notes_listed(ns, path, env_id));
        out
    }

    /// Removes the notes whose identifier starts with `uuid_prefix`.
    /// Returns how many were removed.
    pub fn remove_comment(&mut self, uuid_prefix: &str) -> (removed: usize)
        requires
            old(self)@.wf(),
        ensures
            final(self)@.wf(),
            final(self)@ == (RegistryView {
                notes: old(self)@.notes.filter(note_outside(uuid_prefix@)),
                ..old(self)@
            }),
            removed == old(self)@.notes.len() - final(self)@.notes.len(),
    {
        let ghost before = self@;
        let ghost keep = note_outside(uuid_prefix@);
        let prefix = chars_of(uuid_prefix);
        let mut out: Vec<Note> = Vec::new();
        let mut i: usize = 0;
        proof {
            reveal(Seq::filter);
            assert(before.notes.take(0).filter(keep) =~= Seq::<NoteView>::empty());
            assert(note_views(out@) =~= Seq::<NoteView>::empty());
        }
        while i < self.notes.len()
            invariant
                i <= self.notes.len(),
                self@ == before,
                prefix@ == uuid_prefix@,
                keep == note_outside(uuid_prefix@),
                note_views(out@) == before.notes.take(i as int).filter(keep),
            decreases self.notes.len() - i,
        {
            assert(before.notes[i as int] == self.notes@[i as int]@);
            proof {
                assert(before.notes.take(i + 1) == before.notes.take(i as int).push(
                    before.notes[i as int],
                ));
                before.notes.take(i as int).lemma_filter_push(before.notes[i as int], keep);
            }
            if !has_prefix(&chars_of(self.notes[i].uuid.as_str()), &prefix) {
                let n = self.notes[i].duplicate();
                assert(note_views(out@.push(n)) =~= note_views(out@).push(n@));
                out.push(n);
            }
            i += 1;
        }
        assert(before.notes.take(self.notes.len() as int) == before.notes);
        proof {
            before.notes.lemma_filter_len(keep);
        }
        let removed = self.notes.len() - out.len();
        self.notes = out;
        proof {
            let r = self@;
            assert forall|k: int| 0 <= k < r.labels.len() implies r.has_env(
                (#[trigger] r.labels[k]).env_id,
            ) by {
                assert(before.has_env(before.labels[k].env_id));
                lemma_has_env_same(before, r, before.labels[k].env_id);
            }
            assert forall|k: int| 0 <= k < r.links.len() implies r.has_env(
                (#[trigger] r.links[k]).env_id,
            ) by {
                assert(before.has_env(before.links[k].env_id));
                lemma_has_env_same(before, r, before.links[k].env_id);
            }
            assert forall|a: int, b: int| 0 <= a < b < r.notes.len() implies (
            #[trigger] r.notes[a]).uuid != (#[trigger] r.notes[b]).uuid by {
                let w = lemma_filter_pair(before.notes, keep, a, b);
                assert(before.notes[w.0].uuid != before.notes[w.1].uuid);
            }
            assert forall|k: int|
                0 <= k < r.notes.len() && (#[trigger] r.notes[k]).env_id.is_some() implies env_by_id(
                r.envs,
                r.envs.len() as int,
                r.notes[k].env_id.unwrap(),
            ) >= 0 by {
                let k0 = lemma_filter_one(before.notes, keep, k);
                assert(before.notes[k0].env_id.is_some());
            }
        }
        removed
    }

    /// Holds the version of the stored registry against the version that
    /// this library writes, and brings an older registry up to date.
    pub fn check_schema_version(&mut self) -> (r: SchemaStatus)
        requires
            old(self)@.wf(),
        ensures
            final(self)@.wf(),
            r == (if stored_schema(old(self)@.config) < CURRENT_SCHEMA {
                SchemaStatus::Upgraded { from: stored_schema(old(self)@.config) as i32 }
            } else if stored_schema(old(self)@.config) > CURRENT_SCHEMA {
                SchemaStatus::Ahead { stored: stored_schema(old(self)@.config) as i32 }
            } else {
                SchemaStatus::Current
            }),
            r is Upgraded ==> final(self)@ == (RegistryView {
                config: config_with(
                    old(self)@.config,
                    "schema_version"@,
                    decimal(CURRENT_SCHEMA as nat),
                ),
                ..old(self)@
            }),
            !(r is Upgraded) ==> final(self)@ == old(self)@,
    {
        let stored: i32 = match self.get_config("schema_version") {
            Some(v) => match parse_signed_of(
                &chars_of(v.as_str()),
                i32::MIN as i128,
                i32::MAX as i128,
            ) {
                Some(n) => n as i32,
                None => 1,
            },
            None => 1,
        };
        if stored < CURRENT_SCHEMA {
            let current = string_of(&decimal_of(CURRENT_SCHEMA as u64));
            self.set_config("schema_version", current.as_str());
            SchemaStatus::Upgraded { from: stored }
        } else if stored > CURRENT_SCHEMA {
            SchemaStatus::Ahead { stored }
        } else {
            SchemaStatus::Current
        }
    }

    /// Resets the history of activations: of all links, or, with a time,
    /// of those last activated before it. Returns how many links were
    /// changed.
    pub fn reset_activation_history(&mut self, before: Option<i64>) -> (changed: usize)
        requires
            old(self)@.wf(),
        ensures
            final(self)@.wf(),
            final(self)@ == (RegistryView {
                links: history_reset(old(self)@.links, before),
                ..old(self)@
            }),
            changed == affected_count(old(self)@.links, before, old(self)@.links.len() as int),
    {
        let ghost was = self@;
        let mut changed: usize = 0;
        let mut k: usize = 0;
        while k < self.links.len()
            invariant
                k <= self.links.len(),
                self.links.len() == was.links.len(),
                self.envs == old(self).envs,
                self.labels == old(self).labels,
                self.notes == old(self).notes,
                self.config == old(self).config,
                self.next_id == old(self).next_id,
                changed == affected_count(was.links, before, k as int),
                changed <= k,
                forall|j: int|
                    0 <= j < k ==> (#[trigger] self.links@[j])@ == history_reset(
                        was.links,
                        before,
                    )[j],
                forall|j: int|
                    k <= j < self.links.len() ==> (#[trigger] self.links@[j])@ == was.links[j],
            decreases self.links.len() - k,
        {
            let l = &self.links[k];
            let has_history = l.activation_count > 0 || l.last_activated_at.is_some();
            let old_enough = match before {
                None => true,
                Some(t) => match l.last_activated_at {
                    Some(at) => at < t,
                    None => false,
                },
            };
            if has_history && old_enough {
                let mut n = self.links[k].duplicate();
                n.activation_count = 0;
                n.last_activated_at = None;
                self.links.set(k, n);
                changed += 1;
            }
            k += 1;
        }
        assert(link_views(self.links@) =~= history_reset(was.links, before));
        proof {
            let r = self@;
            assert forall|i: int| 0 <= i < r.labels.len() implies r.has_env(
                (#[trigger] r.labels[i]).env_id,
            ) by {
                assert(was.has_env(was.labels[i].env_id));
                lemma_has_env_same(was, r, was.labels[i].env_id);
            }
            assert forall|i: int| 0 <= i < r.links.len() implies r.has_env(
                (#[trigger] r.links[i]).env_id,
            ) by {
                assert(was.has_env(was.links[i].env_id));
                lemma_has_env_same(was, r, was.links[i].env_id);
            }
            assert forall|a: int, b: int| 0 <= a < b < r.links.len() implies !((
            #[trigger] r.links[a]).project_path == (#[trigger] r.links[b]).project_path
                && r.links[a].env_id == r.links[b].env_id) && !(r.links[a].project_path
                == r.links[b].project_path && r.links[a].is_default && r.links[b].is_default) by {
                assert(!(was.links[a].project_path == was.links[b].project_path
                    && was.links[a].env_id == was.links[b].env_id));
                assert(!(was.links[a].project_path == was.links[b].project_path
                    && was.links[a].is_default && was.links[b].is_default));
            }
        }
        changed
    }

    /// The environment that was activated last, in any directory: its
    /// name and its path.
    pub fn get_last_activated(&self) -> (r: Option<(String, String)>)
        requires
            self@.wf(),
        ensures
            match r {
                Some((name, path)) => {
                    let i = latest_link(self@.links, self@.links.len() as int);
                    let e = env_by_id(self@.envs, self@.envs.len() as int, self@.links[i].env_id);
                    i >= 0 && e >= 0 && name@ == self@.envs[e].name && path@ == self@.envs[e].path
                },
                None => latest_link(self@.links, self@.links.len() as int) < 0,
            },
    {
        let ghost ls = self@.links;
        let mut best: Option<usize> = None;
        let mut n: usize = 0;
        while n < self.links.len()
            invariant
                n <= self.links.len(),
                ls == link_views(self.links@),
                match best {
                    Some(b) => b == latest_link(ls, n as int) && b < n,
                    None => latest_link(ls, n as int) < 0,
                },
            decreases self.links.len() - n,
        {
            assert(ls[n as int] == self.links@[n as int]@);
            let better = match self.links[n].last_activated_at {
                Some(t) => match best {
                    Some(b) => {
                        assert(ls[b as int] == self.links@[b as int]@);
                        match self.links[b].last_activated_at {
                            Some(u) => t > u,
                            None => true,
                        }
                    },
                    None => true,
                },
                None => false,
            };
            if better {
                best = Some(n);
            }
            n += 1;
        }
        match best {
            Some(b) => {
                assert(ls[b as int] == self.links@[b as int]@);
                let id = self.links[b].env_id;
                assert(self@.has_env(id));
                proof {
                    lemma_has_env_iff(self@, id);
                }
                match self.find_env_by_id(id) {
                    Some(e) => {
                        assert(self@.envs[e as int] == self.envs@[e as int]@);
                        Some((self.envs[e].name.clone(), self.envs[e].path.clone()))
                    },
                    None => None,
                }
            },
            None => None,
        }
    }
}


/// A link that is stale: its environment or its project directory is
/// gone.
#[derive(Debug, Clone)]
pub struct StaleLink {
    pub project_path: String,
    pub env_id: u64,
    pub env_name: String,
    /// `env deleted` or `project dir missing`.
    pub reason: String,
}

/// Whether the flag at place `k` is set; a flag that is not there is
/// not set.
pub open spec fn flagged(flags: Seq<bool>, k: int) -> bool {
    0 <= k < flags.len() && flags[k]
}

/// The directory and the environment of those of the first `n` links
/// that are stale, in the order of the links.
pub open spec fn stale_pairs(
    links: Seq<LinkView>,
    env_gone: Seq<bool>,
    project_gone: Seq<bool>,
    n: int,
) -> Seq<(Seq<char>, u64)>
    decreases n,
{
    if n <= 0 {
        Seq::empty()
    } else if flagged(env_gone, n - 1) || flagged(project_gone, n - 1) {
        stale_pairs(links, env_gone, project_gone, n - 1).push(
            (links[n - 1].project_path, links[n - 1].env_id),
        )
    } else {
        stale_pairs(links, env_gone, project_gone, n - 1)
    }
}

/// The content without the links between the first `n` of the pairs of
/// a directory and an environment.
pub open spec fn without_pairs(v: RegistryView, pairs: Seq<(Seq<char>, u64)>, n: int) -> RegistryView
    decreases n,
{
    if n <= 0 {
        v
    } else {
        without_pairs(v, pairs, n - 1).without_links(
            SelectorView::Pair(pairs[n - 1].0, pairs[n - 1].1),
        )
    }
}

/// Why a stale link is pruned.
pub open spec fn stale_reason(env_gone: bool) -> Seq<char> {
    if env_gone {
        "env deleted"@
    } else {
        "project dir missing"@
    }
}

impl Registry {
    /// Removes the links that are stale. `env_gone` says of each link,
    /// in the order of `links()`, whether its environment is gone from
    /// the disk, and `project_gone` whether its project directory is.
    /// Returns the links that were removed.
    pub fn prune_stale_links(&mut self, env_gone: &Vec<bool>, project_gone: &Vec<bool>) -> (r: Vec<
        StaleLink,
    >)
        requires
            old(self)@.wf(),
        ensures
            final(self)@.wf(),
            final(self)@ == without_pairs(
                old(self)@,
                stale_pairs(
                    old(self)@.links,
                    env_gone@,
                    project_gone@,
                    old(self)@.links.len() as int,
                ),
                r.len() as int,
            ),
            r.len() == stale_pairs(
                old(self)@.links,
                env_gone@,
                project_gone@,
                old(self)@.links.len() as int,
            ).len(),
            forall|k: int|
                0 <= k < r.len() ==> ((#[trigger] r@[k]).project_path@, r@[k].env_id)
                    == stale_pairs(
                    old(self)@.links,
                    env_gone@,
                    project_gone@,
                    old(self)@.links.len() as int,
                )[k],
    {
        let ghost before = self@;
        let mut stale: Vec<StaleLink> = Vec::new();
        let mut i: usize = 0;
        while i < self.links.len()
            invariant
                i <= self.links.len(),
                self@ == before,
                before.wf(),
                stale.len() == stale_pairs(before.links, env_gone@, project_gone@, i as int).len(),
                forall|k: int|
                    0 <= k < stale.len() ==> ((#[trigger] stale@[k]).project_path@, stale@[k].env_id)
                        == stale_pairs(before.links, env_gone@, project_gone@, i as int)[k],
            decreases self.links.len() - i,
        {
            assert(before.links[i as int] == self.links@[i as int]@);
            let eg = i < env_gone.len() && env_gone[i];
            let pg = i < project_gone.len() && project_gone[i];
            if eg || pg {
                let id = self.links[i].env_id;
                let env_name = match self.get_env_name_by_id(id) {
                    Some(n) => n,
                    None => String::new(),
                };
                stale.push(
                    StaleLink {
                        project_path: self.links[i].project_path.clone(),
                        env_id: id,
                        env_name,
                        reason: copy_str(
                            if eg {
                                "env deleted"
                            } else {
                                "project dir missing"
                            },
                        ),
                    },
                );
            }
            i += 1;
        }
        let ghost pairs = stale_pairs(
            before.links,
            env_gone@,
            project_gone@,
            before.links.len() as int,
        );
        let mut k: usize = 0;
        while k < stale.len()
            invariant
                k <= stale.len(),
                stale.len() == pairs.len(),
                forall|j: int|
                    0 <= j < stale.len() ==> ((#[trigger] stale@[j]).project_path@, stale@[j].env_id)
                        == pairs[j],
                self@.wf(),
                self@ == without_pairs(before, pairs, k as int),
            decreases stale.len() - k,
        {
            let sel = LinkSelector::Pair(stale[k].project_path.clone(), stale[k].env_id);
            assert((stale@[k as int].project_path@, stale@[k as int].env_id) == pairs[k as int]);
            self.remove_links(&sel);
            k += 1;
        }
        stale
    }
}


impl Registry {
    /// The labels, in the order in which they were added.
    pub fn labels(&self) -> (r: &Vec<Label>)
        ensures
            label_views(r@) == self@.labels,
    {
        &self.labels
    }

    /// The notes, in the order in which they were added.
    pub fn notes(&self) -> (r: &Vec<Note>)
        ensures
            note_views(r@) == self@.notes,
    {
        &self.notes
    }

    /// The identifier that the next new environment gets.
    pub fn next_id(&self) -> (r: u64)
        ensures
            r == self@.next_id,
    {
        self.next_id
    }

    fn envs_ok(&self) -> (b: bool)
        ensures
            b == ((forall|i: int, j: int|
                0 <= i < j < self@.envs.len() ==> (#[trigger] self@.envs[i]).id != (
                #[trigger] self@.envs[j]).id && self@.envs[i].name != self@.envs[j].name
                    && self@.envs[i].path != self@.envs[j].path) && (forall|i: int|
                0 <= i < self@.envs.len() ==> (#[trigger] self@.envs[i]).id < self@.next_id)),
    {
        let ghost es = self@.envs;
        let mut j: usize = 0;
        while j < self.envs.len()
            invariant
                j <= self.envs.len(),
                es == env_views(self.envs@),
                forall|a: int, b: int|
                    0 <= a < b < j ==> (#[trigger] es[a]).id != (#[trigger] es[b]).id && es[a].name
                        != es[b].name && es[a].path != es[b].path,
                forall|a: int| 0 <= a < j ==> (#[trigger] es[a]).id < self.next_id,
            decreases self.envs.len() - j,
        {
            assert(es[j as int] == self.envs@[j as int]@);
            if self.envs[j].id >= self.next_id {
                assert(self@.envs[j as int].id >= self@.next_id);
                return false;
            }
            let mut i: usize = 0;
            while i < j
                invariant
                    i <= j < self.envs.len(),
                    es == env_views(self.envs@),
                    forall|a: int|
                        0 <= a < i ==> (#[trigger] es[a]).id != es[j as int].id && es[a].name
                            != es[j as int].name && es[a].path != es[j as int].path,
                decreases j - i,
            {
                assert(es[i as int] == self.envs@[i as int]@);
                assert(es[j as int] == self.envs@[j as int]@);
                if self.envs[i].id == self.envs[j].id || str_eq(
                    self.envs[i].name.as_str(),
                    self.envs[j].name.as_str(),
                ) || str_eq(self.envs[i].path.as_str(), self.envs[j].path.as_str()) {
                    assert(self@.envs[i as int] == es[i as int]);
                    assert(self@.envs[j as int] == es[j as int]);
                    return false;
                }
                i += 1;
            }
            j += 1;
        }
        true
    }

    fn labels_ok(&self) -> (b: bool)
        ensures
            b == ((forall|i: int|
                0 <= i < self@.labels.len() ==> self@.has_env((#[trigger] self@.labels[i]).env_id))
                && (forall|i: int, j: int|
                0 <= i < j < self@.labels.len() ==> !((#[trigger] self@.labels[i]).env_id == (
                #[trigger] self@.labels[j]).env_id && self@.labels[i].label
                    == self@.labels[j].label))),
    {
        let ghost ls = self@.labels;
        let mut j: usize = 0;
        while j < self.labels.len()
            invariant
                j <= self.labels.len(),
                ls == label_views(self.labels@),
                forall|a: int| 0 <= a < j ==> self@.has_env((#[trigger] ls[a]).env_id),
                forall|a: int, b: int|
                    0 <= a < b < j ==> !((#[trigger] ls[a]).env_id == (#[trigger] ls[b]).env_id
                        && ls[a].label == ls[b].label),
            decreases self.labels.len() - j,
        {
            assert(ls[j as int] == self.labels@[j as int]@);
            proof {
                lemma_has_env_iff(self@, self.labels@[j as int].env_id);
            }
            if self.find_env_by_id(self.labels[j].env_id).is_none() {
                assert(!self@.has_env(self@.labels[j as int].env_id));
                return false;
            }
            let mut i: usize = 0;
            while i < j
                invariant
                    i <= j < self.labels.len(),
                    ls == label_views(self.labels@),
                    forall|a: int|
                        0 <= a < i ==> !((#[trigger] ls[a]).env_id == ls[j as int].env_id
                            && ls[a].label == ls[j as int].label),
                decreases j - i,
            {
                assert(ls[i as int] == self.labels@[i as int]@);
                assert(ls[j as int] == self.labels@[j as int]@);
                if self.labels[i].env_id == self.labels[j].env_id && str_eq(
                    self.labels[i].label.as_str(),
                    self.labels[j].label.as_str(),
                ) {
                    assert(self@.labels[i as int] == ls[i as int]);
                    assert(self@.labels[j as int] == ls[j as int]);
                    return false;
                }
                i += 1;
            }
            j += 1;
        }
        true
    }

    fn links_ok(&self) -> (b: bool)
        ensures
            b == ((forall|i: int|
                0 <= i < self@.links.len() ==> self@.has_env((#[trigger] self@.links[i]).env_id))
                && links_unique(self@.links)),
    {
        let ghost ls = self@.links;
        let mut j: usize = 0;
        while j < self.links.len()
            invariant
                j <= self.links.len(),
                ls == link_views(self.links@),
                forall|a: int| 0 <= a < j ==> self@.has_env((#[trigger] ls[a]).env_id),
                forall|a: int, b: int|
                    0 <= a < b < j ==> !((#[trigger] ls[a]).project_path == (
                    #[trigger] ls[b]).project_path && ls[a].env_id == ls[b].env_id),
                forall|a: int, b: int|
                    0 <= a < b < j ==> !((#[trigger] ls[a]).project_path == (
                    #[trigger] ls[b]).project_path && ls[a].is_default && ls[b].is_default),
            decreases self.links.len() - j,
        {
            assert(ls[j as int] == self.links@[j as int]@);
            proof {
                lemma_has_env_iff(self@, self.links@[j as int].env_id);
            }
            if self.find_env_by_id(self.links[j].env_id).is_none() {
                return false;
            }
            let mut i: usize = 0;
            while i < j
                invariant
                    i <= j < self.links.len(),
                    ls == link_views(self.links@),
                    forall|a: int|
                        0 <= a < i ==> !((#[trigger] ls[a]).project_path == ls[j as int].project_path
                            && ls[a].env_id == ls[j as int].env_id) && !(ls[a].project_path
                            == ls[j as int].project_path && ls[a].is_default && ls[j as int].is_default),
                decreases j - i,
            {
                assert(ls[i as int] == self.links@[i as int]@);
                assert(ls[j as int] == self.links@[j as int]@);
                if str_eq(
                    self.links[i].project_path.as_str(),
                    self.links[j].project_path.as_str(),
                ) && (self.links[i].env_id == self.links[j].env_id || (self.links[i].is_default
                    && self.links[j].is_default)) {
                    return false;
                }
                i += 1;
            }
            j += 1;
        }
        true
    }

    fn config_ok(&self) -> (b: bool)
        ensures
            b == (forall|i: int, j: int|
                0 <= i < j < self@.config.len() ==> (#[trigger] self@.config[i]).key != (
                #[trigger] self@.config[j]).key),
    {
        let ghost cs = self@.config;
        let mut j: usize = 0;
        while j < self.config.len()
            invariant
                j <= self.config.len(),
                cs == config_views(self.config@),
                forall|a: int, b: int|
                    0 <= a < b < j ==> (#[trigger] cs[a]).key != (#[trigger] cs[b]).key,
            decreases self.config.len() - j,
        {
            let mut i: usize = 0;
            while i < j
                invariant
                    i <= j < self.config.len(),
                    cs == config_views(self.config@),
                    forall|a: int| 0 <= a < i ==> (#[trigger] cs[a]).key != cs[j as int].key,
                decreases j - i,
            {
                assert(cs[i as int] == self.config@[i as int]@);
                assert(cs[j as int] == self.config@[j as int]@);
                if str_eq(self.config[i].key.as_str(), self.config[j].key.as_str()) {
                    assert(self@.config[i as int] == cs[i as int]);
                    assert(self@.config[j as int] == cs[j as int]);
                    return false;
                }
                i += 1;
            }
            j += 1;
        }
        true
    }

    fn notes_are_ok(&self) -> (b: bool)
        ensures
            b == notes_ok(self@.envs, self@.notes),
    {
        let ghost ns = self@.notes;
        let ghost es = self@.envs;
        let mut j: usize = 0;
        while j < self.notes.len()
            invariant
                j <= self.notes.len(),
                ns == note_views(self.notes@),
                es == env_views(self.envs@),
                forall|a: int, b: int|
                    0 <= a < b < j ==> (#[trigger] ns[a]).uuid != (#[trigger] ns[b]).uuid,
                forall|a: int|
                    0 <= a < j && (#[trigger] ns[a]).env_id.is_some() ==> env_by_id(
                        es,
                        es.len() as int,
                        ns[a].env_id.unwrap(),
                    ) >= 0,
            decreases self.notes.len() - j,
        {
            assert(ns[j as int] == self.notes@[j as int]@);
            match self.notes[j].env_id {
                Some(e) => {
                    if self.find_env_by_id(e).is_none() {
                        return false;
                    }
                },
                None => {},
            }
            let mut i: usize = 0;
            while i < j
                invariant
                    i <= j < self.notes.len(),
                    ns == note_views(self.notes@),
                    forall|a: int| 0 <= a < i ==> (#[trigger] ns[a]).uuid != ns[j as int].uuid,
                decreases j - i,
            {
                assert(ns[i as int] == self.notes@[i as int]@);
                assert(ns[j as int] == self.notes@[j as int]@);
                if str_eq(self.notes[i].uuid.as_str(), self.notes[j].uuid.as_str()) {
                    return false;
                }
                i += 1;
            }
            j += 1;
        }
        true
    }

    /// Makes a registry of stored content, if the content keeps the
    /// rules of the registry.
    pub fn restore(
        envs: Vec<Environment>,
        labels: Vec<Label>,
        links: Vec<ProjectLink>,
        notes: Vec<Note>,
        config: Vec<ConfigEntry>,
        next_id: u64,
    ) -> (r: Option<Registry>)
        ensures
            ({
                let content = RegistryView {
                    envs: env_views(envs@),
                    labels: label_views(labels@),
                    links: link_views(links@),
                    notes: note_views(notes@),
                    config: config_views(config@),
                    next_id,
                };
                match r {
                    Some(reg) => reg@ == content && content.wf(),
                    None => !content.wf(),
                }
            }),
    {
        let reg = Registry { envs, labels, links, notes, config, next_id };
        if reg.envs_ok() && reg.labels_ok() && reg.links_ok() && reg.config_ok()
            && reg.notes_are_ok() {
            Some(reg)
        } else {
            None
        }
    }
}


impl Registry {
    /// Marks an environment as a favorite, or takes the mark away.
    pub fn set_favorite(&mut self, name: &str, favorite: bool) -> (r: Result<(), RegistryError>)
        requires
            old(self)@.wf(),
        ensures
            final(self)@.wf(),
            match r {
                Ok(_) => {
                    let i = env_by_name(old(self)@.envs, old(self)@.envs.len() as int, name@);
                    i >= 0 && final(self)@ == (RegistryView {
                        envs: old(self)@.envs.update(
                            i,
                            EnvView { is_favorite: favorite, ..old(self)@.envs[i] },
                        ),
                        ..old(self)@
                    })
                },
                Err(e) => e == RegistryError::NotFound && old(self)@.id_of(name@).is_none()
                    && final(self)@ == old(self)@,
            },
    {
        let ghost before = self@;
        match self.find_env_by_name(name) {
            Some(i) => {
                assert(before.envs[i as int] == self.envs@[i as int]@);
                let mut e = self.envs[i].duplicate();
                e.is_favorite = favorite;
                self.envs.set(i, e);
                assert(env_views(self.envs@) =~= before.envs.update(
                    i as int,
                    EnvView { is_favorite: favorite, ..before.envs[i as int] },
                ));
                proof {
                    let r = self@;
                    assert forall|id: u64| before.has_env(id) implies #[trigger] r.has_env(id) by {
                        let k = choose|k: int|
                            0 <= k < before.envs.len() && (#[trigger] before.envs[k]).id == id;
                        assert(r.envs[k].id == id);
                    }
                    assert forall|k: int| 0 <= k < r.labels.len() implies r.has_env(
                        (#[trigger] r.labels[k]).env_id,
                    ) by {
                        assert(before.has_env(before.labels[k].env_id));
                    }
                    assert forall|k: int| 0 <= k < r.links.len() implies r.has_env(
                        (#[trigger] r.links[k]).env_id,
                    ) by {
                        assert(before.has_env(before.links[k].env_id));
                    }
                    assert forall|a: int, b: int| 0 <= a < b < r.envs.len() implies (
                    #[trigger] r.envs[a]).id != (#[trigger] r.envs[b]).id && r.envs[a].name
                        != r.envs[b].name && r.envs[a].path != r.envs[b].path by {
                        assert(before.envs[a].id != before.envs[b].id);
                    }
                    assert forall|a: int| 0 <= a < r.envs.len() implies (#[trigger] r.envs[a]).id
                        < r.next_id by {
                        assert(before.envs[a].id < before.next_id);
                    }
                    lemma_notes_ok_kept(before, r);
                }
                Ok(())
            },
            None => Err(RegistryError::NotFound),
        }
    }
}


/// The directories of the first `n` links, each once, in the order in
/// which they first occur.
pub open spec fn linked_paths(links: Seq<LinkView>, n: int) -> Seq<Seq<char>>
    decreases n,
{
    if n <= 0 {
        Seq::empty()
    } else {
        let prev = linked_paths(links, n - 1);
        if prev.contains(links[n - 1].project_path) {
            prev
        } else {
            prev.push(links[n - 1].project_path)
        }
    }
}

/// The environments among the first `n` that have labels, each with its
/// labels in ascending order, in the order of the environments.
pub open spec fn labelled_envs(v: RegistryView, n: int) -> Seq<(Seq<char>, Seq<Seq<char>>)>
    decreases n,
{
    if n <= 0 {
        Seq::empty()
    } else {
        let prev = labelled_envs(v, n - 1);
        let mine = sorted_texts(labels_of(v.labels, v.labels.len() as int, v.envs[n - 1].id));
        if mine.len() > 0 {
            prev.push((v.envs[n - 1].name, mine))
        } else {
            prev
        }
    }
}

/// The names of environments with their labels.
pub open spec fn labelled_names(g: Seq<(Seq<char>, Seq<Seq<char>>)>) -> Seq<Seq<char>> {
    Seq::new(g.len(), |i: int| g[i].0)
}

/// The environments that have labels, each with its labels in ascending
/// order, in the ascending order of their names.
pub open spec fn labelled_by_name(v: RegistryView) -> Seq<(Seq<char>, Seq<Seq<char>>)> {
    let g = labelled_envs(v, v.envs.len() as int);
    let order = sorted_order(text_keys(labelled_names(g)), g.len() as int, false);
    Seq::new(order.len(), |i: int| g[order[i] as int])
}

/// The views of environments with their labels.
pub open spec fn labelled_views(v: Seq<(String, Vec<String>)>) -> Seq<(Seq<char>, Seq<Seq<char>>)> {
    Seq::new(v.len(), |i: int| (v[i].0@, crate::text::string_views(v[i].1@)))
}

impl Registry {
    /// The environments linked to a project directory, with what is
    /// known of each link, in the order of their rank.
    pub fn get_project_links_with_stats(&self, project_path: &str) -> (r: Vec<Candidate>)
        requires
            self@.wf(),
        ensures
            candidate_views(r@) == found(self@, QueryView::Exact(project_path@)),
            in_rank_order(candidate_views(r@)),
    {
        let q = PathQuery::Exact(copy_str(project_path));
        self.find_candidates(&q)
    }

    /// The environments linked to a project directory, in the order of
    /// their rank.
    pub fn get_project_environments(&self, project_path: &str) -> (r: Vec<Candidate>)
        requires
            self@.wf(),
        ensures
            candidate_views(r@) == found(self@, QueryView::Exact(project_path@)),
            in_rank_order(candidate_views(r@)),
    {
        self.get_project_links_with_stats(project_path)
    }

    /// Removes the links that were made by activation; with a time, only
    /// those never activated or last activated before it. Returns how
    /// many were removed.
    pub fn remove_activation_links(&mut self, before: Option<i64>) -> (removed: usize)
        requires
            old(self)@.wf(),
        ensures
            final(self)@.wf(),
            final(self)@ == old(self)@.without_links(SelectorView::Activated(before)),
            removed == old(self)@.links.len() - final(self)@.links.len(),
    {
        self.remove_links(&LinkSelector::Activated(before))
    }

    /// Removes all links of a project directory. Returns how many were
    /// removed.
    pub fn remove_links_for_path(&mut self, project_path: &str) -> (removed: usize)
        requires
            old(self)@.wf(),
        ensures
            final(self)@.wf(),
            final(self)@ == old(self)@.without_links(SelectorView::AtPath(project_path@)),
            removed == old(self)@.links.len() - final(self)@.links.len(),
    {
        self.remove_links(&LinkSelector::AtPath(copy_str(project_path)))
    }

    /// Removes the link between a project directory and an environment.
    pub fn remove_project_association(&mut self, project_path: &str, env_id: u64)
        requires
            old(self)@.wf(),
        ensures
            final(self)@.wf(),
            final(self)@ == old(self)@.without_links(SelectorView::Pair(project_path@, env_id)),
    {
        self.remove_links(&LinkSelector::Pair(copy_str(project_path), env_id));
    }

    /// The project directories that are linked to an environment, each
    /// once.
    pub fn get_all_project_paths(&self) -> (r: Vec<String>)
        ensures
            crate::text::string_views(r@) == linked_paths(self@.links, self@.links.len() as int),
    {
        let mut out: Vec<String> = Vec::new();
        let ghost ls = self@.links;
        let mut i: usize = 0;
        proof {
            assert(crate::text::string_views(out@) =~= linked_paths(ls, 0));
        }
        while i < self.links.len()
            invariant
                i <= self.links.len(),
                ls == link_views(self.links@),
                crate::text::string_views(out@) == linked_paths(ls, i as int),
            decreases self.links.len() - i,
        {
            assert(ls[i as int] == self.links@[i as int]@);
            let p = &self.links[i].project_path;
            let mut seen = false;
            let mut k: usize = 0;
            while k < out.len()
                invariant
                    k <= out.len(),
                    !seen ==> forall|j: int|
                        0 <= j < k ==> crate::text::string_views(out@)[j] != p@,
                    seen ==> crate::text::string_views(out@).contains(p@),
                decreases out.len() - k,
            {
                assert(crate::text::string_views(out@)[k as int] == out@[k as int]@);
                if str_eq(out[k].as_str(), p.as_str()) {
                    seen = true;
                }
                k += 1;
            }
            if !seen {
                let c = p.clone();
                proof {
                    crate::text::lemma_string_views_push(out@, c);
                }
                out.push(c);
            }
            i += 1;
        }
        out
    }

    /// The environments that have labels, in the ascending order of
    /// their names, each with its labels in ascending order.
    pub fn get_all_labels(&self) -> (r: Vec<(String, Vec<String>)>)
        requires
            self@.wf(),
        ensures
            labelled_views(r@) == labelled_by_name(self@),
    {
        let mut out: Vec<(String, Vec<String>)> = Vec::new();
        let ghost v = self@;
        let mut i: usize = 0;
        proof {
            assert(labelled_views(out@) =~= labelled_envs(v, 0));
        }
        while i < self.envs.len()
            invariant
                i <= self.envs.len(),
                v == self@,
                v.wf(),
                labelled_views(out@) == labelled_envs(v, i as int),
            decreases self.envs.len() - i,
        {
            assert(v.envs[i as int] == self.envs@[i as int]@);
            proof {
                lemma_name_finds_env(v, i as int);
            }
            match self.get_labels(self.envs[i].name.as_str()) {
                Ok(mine) => {
                    if mine.len() > 0 {
                        let entry = (self.envs[i].name.clone(), mine);
                        assert(labelled_views(out@.push(entry)) =~= labelled_views(out@).push(
                            (entry.0@, crate::text::string_views(entry.1@)),
                        ));
                        out.push(entry);
                    }
                },
                Err(_) => {},
            }
            i += 1;
        }
        let mut keys: Vec<SortKey> = Vec::new();
        let mut j: usize = 0;
        while j < out.len()
            invariant
                j <= out.len(),
                keys.len() == j,
                forall|k: int| 0 <= k < j ==> (#[trigger] keys@[k])@ == KeyView::Text(out@[k].0@),
            decreases out.len() - j,
        {
            keys.push(SortKey::Text(crate::text::chars_of(out[j].0.as_str())));
            j += 1;
        }
        assert(key_views(keys@) =~= text_keys(labelled_names(labelled_views(out@))));
        let order = sort_by_key(&keys, false);
        let mut sorted: Vec<(String, Vec<String>)> = Vec::new();
        let mut k: usize = 0;
        while k < order.len()
            invariant
                k <= order.len(),
                sorted.len() == k,
                forall|i: int| 0 <= i < order.len() ==> #[trigger] order@[i] < out.len(),
                forall|i: int|
                    0 <= i < k ==> (#[trigger] sorted@[i]).0@ == out@[order@[i] as int].0@
                        && crate::text::string_views(sorted@[i].1@) == crate::text::string_views(
                        out@[order@[i] as int].1@,
                    ),
            decreases order.len() - k,
        {
            let names = copy_texts(&out[order[k]].1);
            sorted.push((out[order[k]].0.clone(), names));
            k += 1;
        }
        assert(labelled_views(sorted@) =~= labelled_by_name(self@));
        sorted
    }
}

fn copy_texts(v: &Vec<String>) -> (r: Vec<String>)
    ensures
        crate::text::string_views(r@) == crate::text::string_views(v@),
{
    let mut r: Vec<String> = Vec::new();
    let mut i: usize = 0;
    while i < v.len()
        invariant
            i <= v.len(),
            r.len() == i,
            forall|k: int| 0 <= k < i ==> (#[trigger] r@[k])@ == v@[k]@,
        decreases v.len() - i,
    {
        r.push(v[i].clone());
        i += 1;
    }
    assert(crate::text::string_views(r@) =~= crate::text::string_views(v@));
    r
}

} // verus!
