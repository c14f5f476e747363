//! Planning the demonstration tree: from an explicit configuration —
//! root directories, the nested chain below each, and the placeholder
//! file names — compute which directories to remove and recreate and
//! which files to create, every file name in every directory of each
//! chain. Carrying the plan out against a filesystem is the caller's
//! concern.

use vstd::prelude::*;

use crate::strings::copy_strings;
use crate::strings::views_of;

verus! {

/// A path joined to a name below it.
pub open spec fn join_spec(dir: Seq<char>, name: Seq<char>) -> Seq<char> {
    dir + "/"@ + name
}

/// Join a path and a name below it.
pub fn join_path(dir: &str, name: &str) -> (r: String)
    ensures
        r@ == join_spec(dir@, name@),
{
    let mut r = dir.to_owned();
    r.append("/");
    r.append(name);
    r
}

/// The path `k` levels down the chain: the root joined with the first
/// `k` subdirectories.
pub open spec fn prefix_path(root: Seq<char>, subs: Seq<Seq<char>>, k: int) -> Seq<char>
    decreases k,
{
    if k <= 0 {
        root
    } else {
        join_spec(prefix_path(root, subs, k - 1), subs[k - 1])
    }
}

/// Every directory of one chain, from the root itself down to the
/// deepest subdirectory.
pub open spec fn chain_spec(root: Seq<char>, subs: Seq<Seq<char>>) -> Seq<Seq<char>> {
    Seq::new(subs.len() + 1, |k: int| prefix_path(root, subs, k))
}

/// The directories of the chain under one root.
pub fn chain_dirs(root: &str, subdirs: &Vec<String>) -> (r: Vec<String>)
    ensures
        views_of(r@) == chain_spec(root@, views_of(subdirs@)),
{
    let ghost sv = views_of(subdirs@);
    let n = subdirs.len();
    let mut out: Vec<String> = Vec::new();
    let mut cur = root.to_owned();
    out.push(cur.clone());
    let mut i: usize = 0;
    assert(views_of(out@) =~= Seq::new(1, |k: int| prefix_path(root@, sv, k)));
    while i < n
        invariant
            i <= n,
            n == subdirs@.len(),
            sv == views_of(subdirs@),
            cur@ == prefix_path(root@, sv, i as int),
            views_of(out@) == Seq::new(i as nat + 1, |k: int| prefix_path(root@, sv, k)),
        decreases n - i,
    {
        let ghost out_old = out@;
        cur = join_path(cur.as_str(), subdirs[i].as_str());
        assert(cur@ == prefix_path(root@, sv, i as int + 1));
        out.push(cur.clone());
        assert(views_of(out@) =~= views_of(out_old).push(cur@));
        assert(views_of(out@) =~= Seq::new(i as nat + 2, |k: int| prefix_path(root@, sv, k)));
        i = i + 1;
    }
    assert(views_of(out@) =~= chain_spec(root@, sv));
    out
}

/// Each file name joined below one directory, in name order.
pub open spec fn files_in(dir: Seq<char>, files: Seq<Seq<char>>) -> Seq<Seq<char>> {
    files.map_values(|f: Seq<char>| join_spec(dir, f))
}

/// Every file name joined below every directory: the files of one
/// directory together, directories in the given order.
pub open spec fn cross_spec(dirs: Seq<Seq<char>>, files: Seq<Seq<char>>) -> Seq<Seq<char>>
    decreases dirs.len(),
{
    if dirs.len() == 0 {
        Seq::empty()
    } else {
        cross_spec(dirs.drop_last(), files) + files_in(dirs.last(), files)
    }
}

/// The file paths to create: every configured file name in every
/// given directory.
pub fn traverse_dirs(dirs: &Vec<String>, files: &Vec<String>) -> (r: Vec<String>)
    ensures
        views_of(r@) == cross_spec(views_of(dirs@), views_of(files@)),
{
    let ghost dv = views_of(dirs@);
    let ghost fv = views_of(files@);
    let nd = dirs.len();
    let nf = files.len();
    let mut out: Vec<String> = Vec::new();
    let mut i: usize = 0;
    assert(dv.take(0) =~= Seq::<Seq<char>>::empty());
    assert(views_of(out@) =~= cross_spec(dv.take(0), fv));
    while i < nd
        invariant
            i <= nd,
            nd == dirs@.len(),
            nf == files@.len(),
            dv == views_of(dirs@),
            fv == views_of(files@),
            views_of(out@) == cross_spec(dv.take(i as int), fv),
        decreases nd - i,
    {
        let ghost dprefix = dv.take(i as int + 1);
        assert(dprefix.drop_last() =~= dv.take(i as int));
        assert(dprefix.last() == dirs@[i as int]@);
        let mut j: usize = 0;
        while j < nf
            invariant
                j <= nf,
                i < nd,
                nd == dirs@.len(),
                nf == files@.len(),
                dv == views_of(dirs@),
                fv == views_of(files@),
                views_of(out@) == cross_spec(dv.take(i as int), fv) + files_in(
                    dirs@[i as int]@,
                    fv,
                ).take(j as int),
            decreases nf - j,
        {
            let ghost out_old = out@;
            let p = join_path(dirs[i].as_str(), files[j].as_str());
            assert(p@ == files_in(dirs@[i as int]@, fv)[j as int]);
            out.push(p);
            assert(views_of(out@) =~= views_of(out_old).push(
                files_in(dirs@[i as int]@, fv)[j as int],
            ));
            assert(views_of(out@) =~= cross_spec(dv.take(i as int), fv) + files_in(
                dirs@[i as int]@,
                fv,
            ).take(j as int + 1));
            j = j + 1;
        }
        assert(files_in(dirs@[i as int]@, fv).take(nf as int) =~= files_in(dprefix.last(), fv));
        assert(views_of(out@) =~= cross_spec(dprefix, fv));
        i = i + 1;
    }
    assert(dv.take(nd as int) =~= dv);
    out
}

/// What the demonstration tree is made of: the root directories, the
/// chain of subdirectories below each, and the placeholder file names
/// put into every directory of each chain.
#[derive(Debug)]
pub struct FixtureConfig {
    pub roots: Vec<String>,
    pub subdirs: Vec<String>,
    pub files: Vec<String>,
}

/// The computed plan: which directories to remove beforehand, which to
/// create, and which files to create, in order.
#[derive(Debug)]
pub struct FixturePlan {
    pub remove_dirs: Vec<String>,
    pub create_dirs: Vec<String>,
    pub create_files: Vec<String>,
}

/// The directories of every chain, roots in the given order.
pub open spec fn fixture_dirs_spec(roots: Seq<Seq<char>>, subs: Seq<Seq<char>>) -> Seq<Seq<char>>
    decreases roots.len(),
{
    if roots.len() == 0 {
        Seq::empty()
    } else {
        fixture_dirs_spec(roots.drop_last(), subs) + chain_spec(roots.last(), subs)
    }
}

/// Plan the demonstration tree: remove the configured roots, recreate
/// every directory of each chain, and create every configured file in
/// every one of those directories.
pub fn setup_test_files(cfg: &FixtureConfig) -> (plan: FixturePlan)
    ensures
        views_of(plan.remove_dirs@) == views_of(cfg.roots@),
        views_of(plan.create_dirs@) == fixture_dirs_spec(
            views_of(cfg.roots@),
            views_of(cfg.subdirs@),
        ),
        views_of(plan.create_files@) == cross_spec(
            fixture_dirs_spec(views_of(cfg.roots@), views_of(cfg.subdirs@)),
            views_of(cfg.files@),
        ),
{
    let ghost rv = views_of(cfg.roots@);
    let ghost sv = views_of(cfg.subdirs@);
    let remove_dirs = copy_strings(&cfg.roots);
    let n = cfg.roots.len();
    let mut dirs: Vec<String> = Vec::new();
    let mut i: usize = 0;
    assert(rv.take(0) =~= Seq::<Seq<char>>::empty());
    assert(views_of(dirs@) =~= fixture_dirs_spec(rv.take(0), sv));
    while i < n
        invariant
            i <= n,
            n == cfg.roots@.len(),
            rv == views_of(cfg.roots@),
            sv == views_of(cfg.subdirs@),
            views_of(dirs@) == fixture_dirs_spec(rv.take(i as int), sv),
        decreases n - i,
    {
        let ghost rprefix = rv.take(i as int + 1);
        assert(rprefix.drop_last() =~= rv.take(i as int));
        assert(rprefix.last() == cfg.roots@[i as int]@);
        let ghost dirs_old = dirs@;
        let mut chain = chain_dirs(cfg.roots[i].as_str(), &cfg.subdirs);
        let ghost chain_view = views_of(chain@);
        dirs.append(&mut chain);
        assert(views_of(dirs@) =~= views_of(dirs_old) + chain_view);
        i = i + 1;
    }
    assert(rv.take(n as int) =~= rv);
    let create_files = traverse_dirs(&dirs, &cfg.files);
    FixturePlan { remove_dirs, create_dirs: dirs, create_files }
}

/// The configuration the demonstration uses: three roots, one chain of
/// production directories under each, and seven placeholder files.
pub fn default_fixture() -> (cfg: FixtureConfig)
    ensures
        views_of(cfg.roots@) == seq!["zzz/a"@, "zzz/d"@, "zzz/g"@],
        views_of(cfg.subdirs@) == seq![
            "data_analysis"@,
            "primary_cSr"@,
            "prod"@,
            "output"@,
            "c"@,
        ],
        views_of(cfg.files@) == seq![
            "t_bla.out"@,
            "t_bla.pdf"@,
            "t_bla.txt"@,
            "eer_bla.out"@,
            "l_01_bla.out"@,
            "l_02_bla.out"@,
            "g_bla.pdf"@,
        ],
{
    let mut roots: Vec<String> = Vec::new();
    roots.push(String::from_str("zzz/a"));
    roots.push(String::from_str("zzz/d"));
    roots.push(String::from_str("zzz/g"));
    let mut subdirs: Vec<String> = Vec::new();
    subdirs.push(String::from_str("data_analysis"));
    subdirs.push(String::from_str("primary_cSr"));
    subdirs.push(String::from_str("prod"));
    subdirs.push(String::from_str("output"));
    subdirs.push(String::from_str("c"));
    let mut files: Vec<String> = Vec::new();
    files.push(String::from_str("t_bla.out"));
    files.push(String::from_str("t_bla.pdf"));
    files.push(String::from_str("t_bla.txt"));
    files.push(String::from_str("eer_bla.out"));
    files.push(String::from_str("l_01_bla.out"));
    files.push(String::from_str("l_02_bla.out"));
    files.push(String::from_str("g_bla.pdf"));
    let cfg = FixtureConfig { roots, subdirs, files };
    assert(views_of(cfg.roots@) =~= seq!["zzz/a"@, "zzz/d"@, "zzz/g"@]);
    assert(views_of(cfg.subdirs@) =~= seq![
        "data_analysis"@,
        "primary_cSr"@,
        "prod"@,
        "output"@,
        "c"@,
    ]);
    assert(views_of(cfg.files@) =~= seq![
        "t_bla.out"@,
        "t_bla.pdf"@,
        "t_bla.txt"@,
        "eer_bla.out"@,
        "l_01_bla.out"@,
        "l_02_bla.out"@,
        "g_bla.pdf"@,
    ]);
    cfg
}

} // verus!
