//! Discover Sierra Chart install / data folders, including Wine prefixes.
//!
//! Paths are text. Which directories exist is handed in
//! ([`DiscoverInput::existing_dirs`]); [`probe_paths`] lists the ones to test.

use vstd::prelude::*;
use crate::text::{chars_of, eq_chars, push_all, text_from_chars, views};

verus! {

// ------------------------------------------------------------ path text

/// `Path::join` with a relative component: a `/` between the two unless the
/// base is empty or already ends with one.
pub open spec fn join_spec(base: Seq<char>, rel: Seq<char>) -> Seq<char> {
    if base.len() == 0 || base.last() == '/' {
        base + rel
    } else {
        base + seq!['/'] + rel
    }
}

pub fn join_path(base: &String, rel: &str) -> (r: String)
    ensures
        r@ == join_spec(base@, rel@),
{
    let mut v = chars_of(base.as_str());
    let n = v.len();
    if n > 0 && v[n - 1] != '/' {
        v.push('/');
    }
    push_all(&mut v, &chars_of(rel));
    text_from_chars(&v)
}

/// A path component that `Path::components` keeps: not empty, not `.`.
pub open spec fn kept_piece(p: Seq<char>) -> bool {
    p.len() > 0 && p != seq!['.']
}

/// The kept pieces between `/` separators, `cur` being the piece read so far.
pub open spec fn comps_from(s: Seq<char>, cur: Seq<char>) -> Seq<Seq<char>>
    decreases s.len(),
{
    if s.len() == 0 {
        if kept_piece(cur) {
            seq![cur]
        } else {
            Seq::empty()
        }
    } else if s[0] == '/' {
        (if kept_piece(cur) {
            seq![cur]
        } else {
            Seq::empty()
        }) + comps_from(s.drop_first(), Seq::empty())
    } else {
        comps_from(s.drop_first(), cur.push(s[0]))
    }
}

/// What `Path` equality compares: whether the path is absolute, whether a
/// relative path starts with `.`, and the normal components.
pub ghost struct PathKey {
    pub absolute: bool,
    pub cur_dir: bool,
    pub comps: Seq<Seq<char>>,
}

pub open spec fn path_key(s: Seq<char>) -> PathKey {
    PathKey {
        absolute: s.len() > 0 && s[0] == '/',
        cur_dir: s.len() > 0 && s[0] == '.' && (s.len() == 1 || s[1] == '/'),
        comps: comps_from(s, Seq::empty()),
    }
}

/// Two texts name the same path (`PathBuf == PathBuf`).
pub open spec fn same_path(a: Seq<char>, b: Seq<char>) -> bool {
    path_key(a) == path_key(b)
}

fn is_kept(p: &Vec<char>) -> (b: bool)
    ensures
        b == kept_piece(p@),
{
    let dot: Vec<char> = vec!['.'];
    assert(dot@ == seq!['.']);
    p.len() > 0 && !eq_chars(p, &dot)
}

fn components(s: &Vec<char>) -> (r: Vec<Vec<char>>)
    ensures
        views(r@) == comps_from(s@, Seq::empty()),
{
    let mut acc: Vec<Vec<char>> = Vec::new();
    let mut cur: Vec<char> = Vec::new();
    let mut i: usize = 0;
    assert(s@.skip(0) =~= s@);
    while i < s.len()
        invariant
            i <= s@.len(),
            comps_from(s@, Seq::empty()) == views(acc@) + comps_from(s@.skip(i as int), cur@),
        decreases s@.len() - i,
    {
        let c = s[i];
        proof {
            assert(s@.skip(i as int)[0] == c);
            assert(s@.skip(i as int).drop_first() =~= s@.skip(i + 1));
        }
        if c == '/' {
            let ghost before = views(acc@);
            let ghost piece: Seq<Seq<char>> = if kept_piece(cur@) {
                seq![cur@]
            } else {
                Seq::empty()
            };
            if is_kept(&cur) {
                acc.push(cur);
            }
            assert(views(acc@) =~= before + piece);
            cur = Vec::new();
            assert(cur@ =~= Seq::<char>::empty());
            assert(before + piece + comps_from(s@.skip(i + 1), Seq::empty()) =~= before + (piece
                + comps_from(s@.skip(i + 1), Seq::empty())));
        } else {
            cur.push(c);
        }
        i = i + 1;
    }
    let ghost before = views(acc@);
    if is_kept(&cur) {
        acc.push(cur);
        assert(views(acc@) =~= before + seq![cur@]);
    } else {
        assert(views(acc@) =~= before + Seq::<Seq<char>>::empty());
    }
    acc
}

fn eq_lists(a: &Vec<Vec<char>>, b: &Vec<Vec<char>>) -> (r: bool)
    ensures
        r == (views(a@) == views(b@)),
{
    if a.len() != b.len() {
        assert(views(a@).len() != views(b@).len());
        return false;
    }
    for i in 0..a.len()
        invariant
            a@.len() == b@.len(),
            forall|k: int| 0 <= k < i ==> a@[k]@ == b@[k]@,
    {
        if !eq_chars(&a[i], &b[i]) {
            assert(views(a@)[i as int] != views(b@)[i as int]);
            return false;
        }
    }
    assert(views(a@) =~= views(b@));
    true
}

/// Whether two path texts name the same path.
pub fn same_path_text(a: &String, b: &String) -> (r: bool)
    ensures
        r == same_path(a@, b@),
{
    let ac = chars_of(a.as_str());
    let bc = chars_of(b.as_str());
    let a_abs = ac.len() > 0 && ac[0] == '/';
    let b_abs = bc.len() > 0 && bc[0] == '/';
    let a_cur = ac.len() > 0 && ac[0] == '.' && (ac.len() == 1 || ac[1] == '/');
    let b_cur = bc.len() > 0 && bc[0] == '.' && (bc.len() == 1 || bc[1] == '/');
    a_abs == b_abs && a_cur == b_cur && eq_lists(&components(&ac), &components(&bc))
}


// ------------------------------------------------------------ roots

/// The text of each string.
pub open spec fn texts(v: Seq<String>) -> Seq<Seq<char>> {
    Seq::new(v.len(), |i: int| v[i]@)
}

pub open spec fn opt_text(o: Option<String>) -> Option<Seq<char>> {
    match o {
        Some(s) => Some(s@),
        None => None,
    }
}

/// The folders of one Sierra Chart installation.
pub struct SierraRoot {
    pub root: String,
    pub data_dir: String,
    pub journal_dir: String,
    pub scid_dir: String,
}

pub ghost struct RootView {
    pub root: Seq<char>,
    pub data_dir: Seq<char>,
    pub journal_dir: Seq<char>,
    pub scid_dir: Seq<char>,
}

impl View for SierraRoot {
    type V = RootView;

    open spec fn view(&self) -> RootView {
        RootView {
            root: self.root@,
            data_dir: self.data_dir@,
            journal_dir: self.journal_dir@,
            scid_dir: self.scid_dir@,
        }
    }
}

/// `{root}/Data`, the journal folder (the override, else `{root}/Data/Journal`)
/// and the `.scid` folder (`{root}/Data`).
pub open spec fn root_view(root: Seq<char>, journal_override: Option<Seq<char>>) -> RootView {
    let data = join_spec(root, "Data"@);
    RootView {
        root,
        data_dir: data,
        journal_dir: match journal_override {
            Some(p) => p,
            None => join_spec(data, "Journal"@),
        },
        scid_dir: data,
    }
}

pub open spec fn ref_text(o: Option<&String>) -> Option<Seq<char>> {
    match o {
        Some(s) => Some(s@),
        None => None,
    }
}

impl SierraRoot {
    pub fn from_root(root: String, journal_override: Option<&String>) -> (r: Self)
        ensures
            r@ == root_view(root@, ref_text(journal_override)),
    {
        let data_dir = join_path(&root, "Data");
        let journal_dir = match journal_override {
            Some(p) => text_from_chars(&chars_of(p.as_str())),
            None => join_path(&data_dir, "Journal"),
        };
        let scid_dir = text_from_chars(&chars_of(data_dir.as_str()));
        SierraRoot { root, data_dir, journal_dir, scid_dir }
    }
}

/// `~/.config/scdesk/config.toml` contents.
pub struct FileConfig {
    pub sc_root: Option<String>,
    pub extra_roots: Vec<String>,
    pub journal_dir: Option<String>,
}

impl Default for FileConfig {
    fn default() -> (c: Self)
        ensures
            c.sc_root is None,
            c.extra_roots@.len() == 0,
            c.journal_dir is None,
    {
        FileConfig { sc_root: None, extra_roots: Vec::new(), journal_dir: None }
    }
}

/// What discovery reads: the home folder, the `SC_ROOT`, `WINEPREFIX` and
/// `SC_JOURNAL_DIR` environment values, the config file, and which of the
/// probed folders exist.
pub struct DiscoverInput<'a> {
    pub home: String,
    pub sc_root_env: Option<String>,
    pub wineprefix: Option<String>,
    pub journal_dir_env: Option<String>,
    pub config: Option<&'a FileConfig>,
    pub existing_dirs: Vec<String>,
}

pub struct Discovery {
    pub primary: Option<SierraRoot>,
    pub extras: Vec<SierraRoot>,
}

/// `{home}/.config/scdesk/config.toml`.
pub fn default_config_path(home: &String) -> (p: String)
    ensures
        p@ == join_spec(home@, ".config/scdesk/config.toml"@),
{
    join_path(home, ".config/scdesk/config.toml")
}

pub open spec fn has_path(list: Seq<Seq<char>>, p: Seq<char>) -> bool {
    exists|i: int| 0 <= i < list.len() && same_path(#[trigger] list[i], p)
}

/// Appends `p` unless the list already names the same path.
pub open spec fn push_unique_spec(list: Seq<Seq<char>>, p: Seq<char>) -> Seq<Seq<char>> {
    if has_path(list, p) {
        list
    } else {
        list.push(p)
    }
}

pub open spec fn push_all_unique(list: Seq<Seq<char>>, xs: Seq<Seq<char>>) -> Seq<Seq<char>>
    decreases xs.len(),
{
    if xs.len() == 0 {
        list
    } else {
        push_unique_spec(push_all_unique(list, xs.drop_last()), xs.last())
    }
}

/// Candidate roots in search order: `SC_ROOT`, `~/.wine/drive_c/SierraChart`,
/// `$WINEPREFIX/drive_c/SierraChart`, then the config's `sc_root` and
/// `extra_roots`, each only once.
pub open spec fn candidates_spec(i: DiscoverInput) -> Seq<Seq<char>> {
    let l0: Seq<Seq<char>> = match i.sc_root_env {
        Some(p) => seq![p@],
        None => Seq::empty(),
    };
    let l1 = push_unique_spec(l0, join_spec(i.home@, ".wine/drive_c/SierraChart"@));
    let l2 = match i.wineprefix {
        Some(p) => push_unique_spec(l1, join_spec(p@, "drive_c/SierraChart"@)),
        None => l1,
    };
    match i.config {
        Some(c) => push_all_unique(
            match c.sc_root {
                Some(r) => push_unique_spec(l2, r@),
                None => l2,
            },
            texts(c.extra_roots@),
        ),
        None => l2,
    }
}

pub open spec fn dir_exists(i: DiscoverInput, p: Seq<char>) -> bool {
    exists|k: int| 0 <= k < i.existing_dirs@.len() && (#[trigger] i.existing_dirs@[k])@ == p
}

/// Roots accepted from `cands` after `acc`: existing folders, each path once.
pub open spec fn accept_spec(i: DiscoverInput, acc: Seq<Seq<char>>, cands: Seq<Seq<char>>) -> Seq<Seq<char>>
    decreases cands.len(),
{
    if cands.len() == 0 {
        acc
    } else {
        let a = accept_spec(i, acc, cands.drop_last());
        let c = cands.last();
        if dir_exists(i, c) && !has_path(a, c) {
            a.push(c)
        } else {
            a
        }
    }
}

/// `{root}/SierraChartInstance_2` of each root.
pub open spec fn nested_of(roots: Seq<Seq<char>>) -> Seq<Seq<char>> {
    Seq::new(roots.len(), |k: int| join_spec(roots[k], "SierraChartInstance_2"@))
}

/// All accepted roots in order: the candidates, then their second instances.
pub open spec fn roots_spec(i: DiscoverInput) -> Seq<Seq<char>> {
    let first = accept_spec(i, Seq::empty(), candidates_spec(i));
    accept_spec(i, first, nested_of(first))
}

/// `SC_JOURNAL_DIR`, else the config's `journal_dir`.
pub open spec fn journal_override_spec(i: DiscoverInput) -> Option<Seq<char>> {
    match i.journal_dir_env {
        Some(p) => Some(p@),
        None => match i.config {
            Some(c) => opt_text(c.journal_dir),
            None => None,
        },
    }
}

pub ghost struct DiscoveryView {
    pub primary: Option<RootView>,
    pub extras: Seq<RootView>,
}

impl View for Discovery {
    type V = DiscoveryView;

    open spec fn view(&self) -> DiscoveryView {
        DiscoveryView {
            primary: match self.primary {
                Some(r) => Some(r@),
                None => None,
            },
            extras: Seq::new(self.extras@.len(), |k: int| self.extras@[k]@),
        }
    }
}

/// The first accepted root is primary, the rest are extras.
pub open spec fn discover_spec(i: DiscoverInput) -> DiscoveryView {
    let roots = roots_spec(i);
    let jo = journal_override_spec(i);
    DiscoveryView {
        primary: if roots.len() > 0 {
            Some(root_view(roots[0], jo))
        } else {
            None
        },
        extras: Seq::new(
            if roots.len() > 0 {
                (roots.len() - 1) as nat
            } else {
                0
            },
            |k: int| root_view(roots[k + 1], jo),
        ),
    }
}

fn has_path_text(list: &Vec<String>, p: &String) -> (b: bool)
    ensures
        b == has_path(texts(list@), p@),
{
    for k in 0..list.len()
        invariant
            forall|j: int| 0 <= j < k ==> !same_path(#[trigger] texts(list@)[j], p@),
    {
        if same_path_text(&list[k], p) {
            assert(same_path(texts(list@)[k as int], p@));
            return true;
        }
    }
    false
}

fn push_unique(out: &mut Vec<String>, path: Option<String>)
    ensures
        texts(final(out)@) == match path {
            Some(p) => push_unique_spec(texts(old(out)@), p@),
            None => texts(old(out)@),
        },
{
    if let Some(p) = path {
        if !has_path_text(out, &p) {
            let ghost before = texts(out@);
            let ghost pv = p@;
            out.push(p);
            assert(texts(out@) =~= before.push(pv));
        }
    }
}

fn copy_text(s: &String) -> (r: String)
    ensures
        r@ == s@,
{
    text_from_chars(&chars_of(s.as_str()))
}

fn exists_in(existing: &Vec<String>, p: &String) -> (b: bool)
    ensures
        b == exists|k: int| 0 <= k < existing@.len() && (#[trigger] existing@[k])@ == p@,
{
    let pc = chars_of(p.as_str());
    for k in 0..existing.len()
        invariant
            pc@ == p@,
            forall|j: int| 0 <= j < k ==> (#[trigger] existing@[j])@ != p@,
    {
        if eq_chars(&chars_of(existing[k].as_str()), &pc) {
            return true;
        }
    }
    false
}

/// The candidate roots of [`candidates_spec`].
pub fn candidates(input: &DiscoverInput) -> (c: Vec<String>)
    ensures
        texts(c@) == candidates_spec(*input),
{
    let mut c: Vec<String> = Vec::new();
    match &input.sc_root_env {
        Some(p) => {
            c.push(copy_text(p));
            assert(texts(c@) =~= seq![p@]);
        },
        None => {
            assert(texts(c@) =~= Seq::<Seq<char>>::empty());
        },
    }
    push_unique(&mut c, Some(join_path(&input.home, ".wine/drive_c/SierraChart")));
    if let Some(p) = &input.wineprefix {
        push_unique(&mut c, Some(join_path(p, "drive_c/SierraChart")));
    }
    if let Some(cfg) = input.config {
        match &cfg.sc_root {
            Some(r) => push_unique(&mut c, Some(copy_text(r))),
            None => {},
        }
        let ghost base = texts(c@);
        for k in 0..cfg.extra_roots.len()
            invariant
                texts(c@) == push_all_unique(base, texts(cfg.extra_roots@).take(k as int)),
        {
            proof {
                assert(texts(cfg.extra_roots@).take(k + 1).drop_last() =~= texts(
                    cfg.extra_roots@,
                ).take(k as int));
            }
            push_unique(&mut c, Some(copy_text(&cfg.extra_roots[k])));
        }
        assert(texts(cfg.extra_roots@).take(cfg.extra_roots@.len() as int) =~= texts(
            cfg.extra_roots@,
        ));
    }
    c
}

/// Each candidate followed by its second instance.
pub open spec fn probes_of(c: Seq<Seq<char>>) -> Seq<Seq<char>>
    decreases c.len(),
{
    if c.len() == 0 {
        Seq::empty()
    } else {
        probes_of(c.drop_last()) + seq![c.last(), join_spec(c.last(), "SierraChartInstance_2"@)]
    }
}

/// Every folder whose existence discovery asks about: each candidate and its second instance.
pub fn probe_paths(input: &DiscoverInput) -> (v: Vec<String>)
    ensures
        texts(v@) == probes_of(candidates_spec(*input)),
        forall|k: int|
            0 <= k < candidates_spec(*input).len() ==> texts(v@).contains(
                #[trigger] candidates_spec(*input)[k],
            ) && texts(v@).contains(nested_of(candidates_spec(*input))[k]),
{
    let c = candidates(input);
    let mut v: Vec<String> = Vec::new();
    assert(texts(c@).take(0) =~= Seq::<Seq<char>>::empty());
    for k in 0..c.len()
        invariant
            texts(v@) == probes_of(texts(c@).take(k as int)),
            forall|j: int|
                0 <= j < k ==> texts(v@).contains(#[trigger] texts(c@)[j]) && texts(v@).contains(
                    nested_of(texts(c@))[j],
                ),
    {
        let ghost before = texts(v@);
        v.push(copy_text(&c[k]));
        v.push(join_path(&c[k], "SierraChartInstance_2"));
        proof {
            assert(texts(v@) =~= before.push(texts(c@)[k as int]).push(nested_of(texts(c@))[k as int]));
            assert(texts(c@).take(k + 1).drop_last() =~= texts(c@).take(k as int));
            assert(texts(v@) =~= probes_of(texts(c@).take(k + 1)));
            assert forall|j: int| 0 <= j <= k implies texts(v@).contains(#[trigger] texts(c@)[j])
                && texts(v@).contains(nested_of(texts(c@))[j]) by {
                if j < k {
                    let a = choose|m: int| 0 <= m < before.len() && before[m] == texts(c@)[j];
                    let b = choose|m: int| 0 <= m < before.len() && before[m] == nested_of(texts(c@))[j];
                    assert(texts(v@)[a] == before[a]);
                    assert(texts(v@)[b] == before[b]);
                } else {
                    assert(texts(v@)[before.len() as int] == texts(c@)[j]);
                    assert(texts(v@)[before.len() as int + 1] == nested_of(texts(c@))[j]);
                }
            }
        }
    }
    assert(texts(c@).take(c@.len() as int) =~= texts(c@));
    v
}

/// Adds `root` unless an accepted root already names the same path.
fn maybe_push_root(out: &mut Vec<SierraRoot>, roots: &mut Vec<String>, root: String, journal_override: Option<&String>)
    requires
        old(out)@.len() == old(roots)@.len(),
        forall|k: int| 0 <= k < old(out)@.len() ==> (#[trigger] old(out)@[k])@ == root_view(old(roots)@[k]@, ref_text(journal_override)),
    ensures
        final(out)@.len() == final(roots)@.len(),
        forall|k: int| 0 <= k < final(out)@.len() ==> (#[trigger] final(out)@[k])@ == root_view(final(roots)@[k]@, ref_text(journal_override)),
        texts(final(roots)@) == (if has_path(texts(old(roots)@), root@) {
            texts(old(roots)@)
        } else {
            texts(old(roots)@).push(root@)
        }),
{
    if has_path_text(roots, &root) {
        return;
    }
    let ghost before = texts(roots@);
    let copy = copy_text(&root);
    out.push(SierraRoot::from_root(root, journal_override));
    roots.push(copy);
    assert(texts(roots@) =~= before.push(copy@));
}

/// Finds the Sierra Chart roots: the first existing candidate is primary;
/// later ones, and any existing `SierraChartInstance_2` inside an accepted
/// root, are extras. Each path is taken once.
pub fn discover(input: &DiscoverInput) -> (d: Discovery)
    ensures
        d@ == discover_spec(*input),
{
    let journal_override: Option<&String> = match &input.journal_dir_env {
        Some(p) => Some(p),
        None => match input.config {
            Some(c) => match &c.journal_dir {
                Some(j) => Some(j),
                None => None,
            },
            None => None,
        },
    };
    assert(ref_text(journal_override) == journal_override_spec(*input));
    let cands = candidates(input);
    let mut accepted: Vec<SierraRoot> = Vec::new();
    let mut roots: Vec<String> = Vec::new();
    assert(texts(roots@) =~= Seq::<Seq<char>>::empty());
    for k in 0..cands.len()
        invariant
            texts(cands@) == candidates_spec(*input),
            accepted@.len() == roots@.len(),
            forall|j: int| 0 <= j < accepted@.len() ==> (#[trigger] accepted@[j])@ == root_view(roots@[j]@, ref_text(journal_override)),
            texts(roots@) == accept_spec(*input, Seq::empty(), texts(cands@).take(k as int)),
    {
        proof {
            assert(texts(cands@).take(k + 1).drop_last() =~= texts(cands@).take(k as int));
        }
        if exists_in(&input.existing_dirs, &cands[k]) {
            maybe_push_root(&mut accepted, &mut roots, copy_text(&cands[k]), journal_override);
        }
    }
    assert(texts(cands@).take(cands@.len() as int) =~= texts(cands@));
    let ghost first = texts(roots@);
    let mut nested: Vec<String> = Vec::new();
    for k in 0..roots.len()
        invariant
            texts(roots@) == first,
            texts(nested@) == nested_of(first).take(k as int),
    {
        let ghost before = texts(nested@);
        assert(first[k as int] == roots@[k as int]@);
        let j = join_path(&roots[k], "SierraChartInstance_2");
        let ghost jv = j@;
        nested.push(j);
        assert(texts(nested@) =~= before.push(jv));
        assert(texts(nested@) =~= nested_of(first).take(k + 1));
    }
    assert(nested_of(first).take(first.len() as int) =~= nested_of(first));
    for k in 0..nested.len()
        invariant
            texts(nested@) == nested_of(first),
            first == accept_spec(*input, Seq::empty(), candidates_spec(*input)),
            accepted@.len() == roots@.len(),
            forall|j: int| 0 <= j < accepted@.len() ==> (#[trigger] accepted@[j])@ == root_view(roots@[j]@, ref_text(journal_override)),
            texts(roots@) == accept_spec(*input, first, texts(nested@).take(k as int)),
    {
        proof {
            assert(texts(nested@).take(k + 1).drop_last() =~= texts(nested@).take(k as int));
        }
        if exists_in(&input.existing_dirs, &nested[k]) {
            maybe_push_root(&mut accepted, &mut roots, copy_text(&nested[k]), journal_override);
        }
    }
    assert(texts(nested@).take(nested@.len() as int) =~= texts(nested@));
    assert(texts(roots@) == roots_spec(*input));
    if accepted.len() > 0 {
        let primary = accepted.remove(0);
        let d = Discovery { primary: Some(primary), extras: accepted };
        assert(d@.extras =~= discover_spec(*input).extras);
        d
    } else {
        let d = Discovery { primary: None, extras: accepted };
        assert(d@.extras =~= discover_spec(*input).extras);
        d
    }
}

// ------------------------------------------------------------ laws

pub open spec fn prefix_of(a: Seq<Seq<char>>, b: Seq<Seq<char>>) -> bool {
    a.len() <= b.len() && forall|j: int| 0 <= j < a.len() ==> #[trigger] b[j] == a[j]
}

/// No two entries name the same path.
pub open spec fn distinct_paths(s: Seq<Seq<char>>) -> bool {
    forall|a: int, b: int| 0 <= a < b < s.len() ==> !same_path(#[trigger] s[a], #[trigger] s[b])
}

proof fn lemma_push_unique_keeps(list: Seq<Seq<char>>, p: Seq<char>)
    ensures
        prefix_of(list, push_unique_spec(list, p)),
{
}

proof fn lemma_push_all_unique_keeps(list: Seq<Seq<char>>, xs: Seq<Seq<char>>)
    ensures
        prefix_of(list, push_all_unique(list, xs)),
    decreases xs.len(),
{
    if xs.len() > 0 {
        lemma_push_all_unique_keeps(list, xs.drop_last());
        lemma_push_unique_keeps(push_all_unique(list, xs.drop_last()), xs.last());
    }
}

proof fn lemma_accept_keeps(i: DiscoverInput, acc: Seq<Seq<char>>, cands: Seq<Seq<char>>)
    ensures
        prefix_of(acc, accept_spec(i, acc, cands)),
    decreases cands.len(),
{
    if cands.len() > 0 {
        lemma_accept_keeps(i, acc, cands.drop_last());
    }
}

proof fn lemma_accept_prefix(i: DiscoverInput, acc: Seq<Seq<char>>, cands: Seq<Seq<char>>, k: int)
    requires
        0 <= k <= cands.len(),
    ensures
        prefix_of(accept_spec(i, acc, cands.take(k)), accept_spec(i, acc, cands)),
    decreases cands.len(),
{
    if k == cands.len() {
        assert(cands.take(k) =~= cands);
    } else {
        assert(cands.drop_last().take(k) =~= cands.take(k));
        lemma_accept_prefix(i, acc, cands.drop_last(), k);
        lemma_accept_keeps(i, accept_spec(i, acc, cands.drop_last()), seq![cands.last()]);
    }
}

proof fn lemma_accept_none(i: DiscoverInput, acc: Seq<Seq<char>>, cands: Seq<Seq<char>>)
    requires
        forall|j: int| 0 <= j < cands.len() ==> !dir_exists(i, #[trigger] cands[j]),
    ensures
        accept_spec(i, acc, cands) == acc,
    decreases cands.len(),
{
    if cands.len() > 0 {
        lemma_accept_none(i, acc, cands.drop_last());
    }
}

proof fn lemma_accept_first(i: DiscoverInput, cands: Seq<Seq<char>>, k: int)
    requires
        0 <= k < cands.len(),
        dir_exists(i, cands[k]),
        forall|j: int| 0 <= j < k ==> !dir_exists(i, #[trigger] cands[j]),
    ensures
        accept_spec(i, Seq::empty(), cands).len() > 0,
        accept_spec(i, Seq::empty(), cands)[0] == cands[k],
{
    let e = Seq::<Seq<char>>::empty();
    assert forall|j: int| 0 <= j < cands.take(k).len() implies !dir_exists(i, #[trigger] cands.take(k)[j]) by {
        assert(cands.take(k)[j] == cands[j]);
    }
    lemma_accept_none(i, e, cands.take(k));
    assert(cands.take(k + 1).drop_last() =~= cands.take(k));
    assert(cands.take(k + 1).last() == cands[k]);
    assert(!has_path(e, cands[k]));
    assert(accept_spec(i, e, cands.take(k + 1)) == e.push(cands[k]));
    lemma_accept_prefix(i, e, cands, k + 1);
}

proof fn lemma_accept_exists(i: DiscoverInput, acc: Seq<Seq<char>>, cands: Seq<Seq<char>>)
    ensures
        forall|j: int|
            acc.len() <= j < accept_spec(i, acc, cands).len() ==> dir_exists(
                i,
                #[trigger] accept_spec(i, acc, cands)[j],
            ),
    decreases cands.len(),
{
    if cands.len() > 0 {
        lemma_accept_exists(i, acc, cands.drop_last());
        lemma_accept_keeps(i, acc, cands.drop_last());
    }
}

proof fn lemma_accept_distinct(i: DiscoverInput, acc: Seq<Seq<char>>, cands: Seq<Seq<char>>)
    requires
        distinct_paths(acc),
    ensures
        distinct_paths(accept_spec(i, acc, cands)),
    decreases cands.len(),
{
    if cands.len() > 0 {
        lemma_accept_distinct(i, acc, cands.drop_last());
        let a = accept_spec(i, acc, cands.drop_last());
        let c = cands.last();
        if dir_exists(i, c) && !has_path(a, c) {
            let r = a.push(c);
            assert forall|x: int, y: int| 0 <= x < y < r.len() implies !same_path(
                #[trigger] r[x],
                #[trigger] r[y],
            ) by {
                if y == a.len() {
                    assert(r[x] == a[x]);
                    if same_path(a[x], c) {
                        assert(has_path(a, c));
                    }
                } else {
                    assert(r[x] == a[x] && r[y] == a[y]);
                }
            }
        }
    }
}

/// The primary root is the first candidate, in search order, whose folder exists.
pub proof fn lemma_primary_is_first_existing(i: DiscoverInput, k: int)
    requires
        0 <= k < candidates_spec(i).len(),
        dir_exists(i, candidates_spec(i)[k]),
        forall|j: int| 0 <= j < k ==> !dir_exists(i, #[trigger] candidates_spec(i)[j]),
    ensures
        discover_spec(i).primary == Some(root_view(candidates_spec(i)[k], journal_override_spec(i))),
{
    let cands = candidates_spec(i);
    lemma_accept_first(i, cands, k);
    let first = accept_spec(i, Seq::empty(), cands);
    lemma_accept_keeps(i, first, nested_of(first));
    assert(roots_spec(i)[0] == first[0]);
}

/// An existing `SC_ROOT` is the primary root.
pub proof fn lemma_sc_root_wins(i: DiscoverInput)
    requires
        i.sc_root_env is Some,
        dir_exists(i, i.sc_root_env.unwrap()@),
    ensures
        discover_spec(i).primary == Some(root_view(i.sc_root_env.unwrap()@, journal_override_spec(i))),
{
    let p = i.sc_root_env.unwrap()@;
    let l0 = seq![p];
    let l1 = push_unique_spec(l0, join_spec(i.home@, ".wine/drive_c/SierraChart"@));
    lemma_push_unique_keeps(l0, join_spec(i.home@, ".wine/drive_c/SierraChart"@));
    let l2 = match i.wineprefix {
        Some(w) => push_unique_spec(l1, join_spec(w@, "drive_c/SierraChart"@)),
        None => l1,
    };
    if let Some(w) = i.wineprefix {
        lemma_push_unique_keeps(l1, join_spec(w@, "drive_c/SierraChart"@));
    }
    assert(l2[0] == p);
    match i.config {
        Some(c) => {
            let l3 = match c.sc_root {
                Some(r) => push_unique_spec(l2, r@),
                None => l2,
            };
            if let Some(r) = c.sc_root {
                lemma_push_unique_keeps(l2, r@);
            }
            lemma_push_all_unique_keeps(l3, texts(c.extra_roots@));
            assert(candidates_spec(i)[0] == p);
        },
        None => {},
    }
    lemma_primary_is_first_existing(i, 0);
}

/// Every root found exists, and no two roots name the same folder.
pub proof fn lemma_roots_exist_and_differ(i: DiscoverInput)
    ensures
        forall|j: int| 0 <= j < roots_spec(i).len() ==> dir_exists(i, #[trigger] roots_spec(i)[j]),
        distinct_paths(roots_spec(i)),
{
    let e = Seq::<Seq<char>>::empty();
    let first = accept_spec(i, e, candidates_spec(i));
    lemma_accept_exists(i, e, candidates_spec(i));
    lemma_accept_exists(i, first, nested_of(first));
    lemma_accept_keeps(i, first, nested_of(first));
    lemma_accept_distinct(i, e, candidates_spec(i));
    lemma_accept_distinct(i, first, nested_of(first));
    assert forall|j: int| 0 <= j < roots_spec(i).len() implies dir_exists(i, #[trigger] roots_spec(i)[j]) by {
        if j < first.len() {
            assert(roots_spec(i)[j] == first[j]);
        }
    }
}

/// `SC_JOURNAL_DIR`, when set, is the journal folder of every root found.
pub proof fn lemma_journal_env_wins(i: DiscoverInput)
    requires
        i.journal_dir_env is Some,
    ensures
        discover_spec(i).primary matches Some(r) ==> r.journal_dir == i.journal_dir_env.unwrap()@,
        forall|k: int|
            0 <= k < discover_spec(i).extras.len() ==> (#[trigger] discover_spec(i).extras[k]).journal_dir
                == i.journal_dir_env.unwrap()@,
{
}

proof fn lemma_accept_has(i: DiscoverInput, acc: Seq<Seq<char>>, cands: Seq<Seq<char>>, k: int)
    requires
        0 <= k < cands.len(),
        dir_exists(i, cands[k]),
    ensures
        has_path(accept_spec(i, acc, cands), cands[k]),
    decreases cands.len(),
{
    let a = accept_spec(i, acc, cands.drop_last());
    if k < cands.len() - 1 {
        lemma_accept_has(i, acc, cands.drop_last(), k);
        let w = choose|j: int| 0 <= j < a.len() && same_path(#[trigger] a[j], cands[k]);
        lemma_accept_keeps(i, a, seq![cands.last()]);
        assert(accept_spec(i, acc, cands)[w] == a[w]);
    } else if !has_path(a, cands[k]) {
        assert(accept_spec(i, acc, cands) == a.push(cands[k]));
        assert(same_path(accept_spec(i, acc, cands)[a.len() as int], cands[k]));
    } else {
        let w = choose|j: int| 0 <= j < a.len() && same_path(#[trigger] a[j], cands[k]);
        assert(accept_spec(i, acc, cands)[w] == a[w]);
    }
}

/// An existing `SierraChartInstance_2` inside a root found from the
/// candidates is itself among the roots.
pub proof fn lemma_instance_2_found(i: DiscoverInput, k: int)
    requires
        0 <= k < accept_spec(i, Seq::empty(), candidates_spec(i)).len(),
        dir_exists(i, join_spec(accept_spec(i, Seq::empty(), candidates_spec(i))[k], "SierraChartInstance_2"@)),
    ensures
        has_path(
            roots_spec(i),
            join_spec(accept_spec(i, Seq::empty(), candidates_spec(i))[k], "SierraChartInstance_2"@),
        ),
{
    let first = accept_spec(i, Seq::empty(), candidates_spec(i));
    lemma_accept_has(i, first, nested_of(first), k);
}

} // verus!
