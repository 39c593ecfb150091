//! Which modules a program consists of.

use vstd::prelude::*;

use crate::api::ast::{ImportV, ItemV};
use crate::loader;
use crate::loader::{ContentV, FileV, FoundV, LoadV};
use crate::prelude;
use crate::registry;
use crate::span::Spanned;
use crate::text::Text;

verus! {

// ── what imports refer to ──────────────────────────────────────────────────

/// Whether an import below `prefix` has a leaf in `module`: the names on the
/// way to a leaf, without the leaf itself, are its module, and the leaves of
/// braces are those of all that stands in them.
pub open spec fn has_leaf_in(i: ImportV, prefix: Seq<Text>, module: Seq<Text>) -> bool
    decreases i,
{
    match i {
        ImportV::Import(id, Some(next), _) => has_leaf_in(
            next.inner,
            prefix.push(id.inner),
            module,
        ),
        ImportV::Import(_, None, _) => module == prefix,
        ImportV::MultiImport(entries) => exists|k: int|
            0 <= k < entries.len() && has_leaf_in((#[trigger] entries[k]).inner, prefix, module),
    }
}

spec fn entry_has_leaf_in(
    entries: Seq<Spanned<ImportV>>,
    k: int,
    prefix: Seq<Text>,
    module: Seq<Text>,
) -> bool {
    has_leaf_in(entries[k].inner, prefix, module)
}

/// Whether an item imports something from `module`.
pub open spec fn imports_from(item: ItemV, module: Seq<Text>) -> bool {
    item matches ItemV::Import(i) && module.len() > 0 && has_leaf_in(i.inner, Seq::empty(), module)
}

/// Whether one of the items imports something from `module`.
pub open spec fn refer_to(items: Seq<Spanned<ItemV>>, module: Seq<Text>) -> bool {
    exists|k: int| 0 <= k < items.len() && #[trigger] imports_from(items[k].inner, module)
}

proof fn targets_are_leaves(i: ImportV, prefix: Seq<Text>, found: Seq<Seq<Text>>)
    requires
        loader::ascending(found),
    ensures
        loader::ascending(loader::import_targets(i, prefix, found)),
        forall|m: Seq<Text>|
            #[trigger] loader::import_targets(i, prefix, found).contains(m) <==> found.contains(m)
                || m.len() > 0 && has_leaf_in(i, prefix, m),
    decreases i,
{
    match i {
        ImportV::Import(id, Some(next), _) => {
            targets_are_leaves(next.inner, prefix.push(id.inner), found);
        },
        ImportV::Import(_, None, _) => {
            loader::placed_keeps_order(found, prefix);
        },
        ImportV::MultiImport(entries) => {
            entries_are_leaves(entries, entries.len(), prefix, found);
            assert forall|m: Seq<Text>|
                #[trigger] loader::import_targets(i, prefix, found).contains(m) <==> found.contains(
                    m,
                ) || m.len() > 0 && has_leaf_in(i, prefix, m) by {
                if exists|k: int|
                    0 <= k < entries.len() && #[trigger] entry_has_leaf_in(entries, k, prefix, m) {
                    let k = choose|k: int|
                        0 <= k < entries.len() && #[trigger] entry_has_leaf_in(
                            entries,
                            k,
                            prefix,
                            m,
                        );
                    assert(has_leaf_in(entries[k].inner, prefix, m));
                    assert(has_leaf_in(i, prefix, m));
                }
                if has_leaf_in(i, prefix, m) {
                    let k = choose|k: int|
                        0 <= k < entries.len() && has_leaf_in(
                            (#[trigger] entries[k]).inner,
                            prefix,
                            m,
                        );
                    assert(entry_has_leaf_in(entries, k, prefix, m));
                }
            }
        },
    }
}

proof fn entries_are_leaves(
    entries: Seq<Spanned<ImportV>>,
    n: nat,
    prefix: Seq<Text>,
    found: Seq<Seq<Text>>,
)
    requires
        loader::ascending(found),
        n <= entries.len(),
    ensures
        loader::ascending(loader::entry_targets(entries, n, prefix, found)),
        forall|m: Seq<Text>|
            #[trigger] loader::entry_targets(entries, n, prefix, found).contains(m)
                <==> found.contains(m) || m.len() > 0 && exists|k: int|
                0 <= k < n && #[trigger] entry_has_leaf_in(entries, k, prefix, m),
    decreases entries, n,
{
    if n > 0 {
        let before = loader::entry_targets(entries, (n - 1) as nat, prefix, found);
        entries_are_leaves(entries, (n - 1) as nat, prefix, found);
        targets_are_leaves(entries[n - 1].inner, prefix, before);
        assert forall|m: Seq<Text>|
            #[trigger] loader::entry_targets(entries, n, prefix, found).contains(m)
                <==> found.contains(m) || m.len() > 0 && exists|k: int|
                0 <= k < n && #[trigger] entry_has_leaf_in(entries, k, prefix, m) by {
            assert(entry_has_leaf_in(entries, n - 1, prefix, m) == has_leaf_in(
                entries[n - 1].inner,
                prefix,
                m,
            ));
            assert(before.contains(m) <==> found.contains(m) || m.len() > 0 && exists|k: int|
                0 <= k < n - 1 && #[trigger] entry_has_leaf_in(entries, k, prefix, m));
        }
    }
}

proof fn first_referenced(items: Seq<Spanned<ItemV>>, n: nat)
    requires
        n <= items.len(),
    ensures
        loader::ascending(loader::referenced(items, n)),
        forall|m: Seq<Text>|
            #[trigger] loader::referenced(items, n).contains(m) <==> exists|k: int|
                0 <= k < n && #[trigger] imports_from(items[k].inner, m),
    decreases n,
{
    if n > 0 {
        let before = loader::referenced(items, (n - 1) as nat);
        first_referenced(items, (n - 1) as nat);
        if let ItemV::Import(i) = items[n - 1].inner {
            targets_are_leaves(i.inner, Seq::empty(), before);
        }
        assert forall|m: Seq<Text>|
            #[trigger] loader::referenced(items, n).contains(m) <==> exists|k: int|
                0 <= k < n && #[trigger] imports_from(items[k].inner, m) by {
            assert(before.contains(m) <==> exists|k: int|
                0 <= k < n - 1 && #[trigger] imports_from(items[k].inner, m));
            if imports_from(items[n - 1].inner, m) {
            }
        }
    }
}

/// The modules that items refer to are those that some import of them has a
/// leaf in, all of them and no others.
pub proof fn referenced_modules_are_imported(items: Seq<Spanned<ItemV>>)
    ensures
        forall|m: Seq<Text>|
            #[trigger] loader::referenced(items, items.len()).contains(m) <==> refer_to(items, m),
{
    first_referenced(items, items.len());
}

// ── what is loaded ─────────────────────────────────────────────────────────

/// Whether a file can be read and imports something from `module`.
pub open spec fn file_refers_to(f: FileV, module: Seq<Text>) -> bool {
    prelude::parse_result(f.src) matches Ok(items) && refer_to(items, module)
}

/// Whether what is known of a path first is that it holds `src`.
pub open spec fn holds(disk: Seq<(Text, ContentV)>, path: Text, src: Text) -> bool {
    exists|k: int|
        {
            &&& 0 <= k < disk.len()
            &&& #[trigger] disk[k] == (path, ContentV::Text(src))
            &&& forall|j: int| 0 <= j < k ==> (#[trigger] disk[j]).0 != path
        }
}

/// Whether what is known of a path first is that it is not there.
pub open spec fn is_absent(disk: Seq<(Text, ContentV)>, path: Text) -> bool {
    exists|k: int|
        {
            &&& 0 <= k < disk.len()
            &&& (#[trigger] disk[k]).0 == path
            &&& disk[k].1 is Absent
            &&& forall|j: int| 0 <= j < k ==> (#[trigger] disk[j]).0 != path
        }
}

/// Whether a module's file lies where it has to: named like the module below
/// the root or, where there is no such file, `mod.lake` in the directory that
/// is named so.
pub open spec fn lies_below(disk: Seq<(Text, ContentV)>, root: Text, f: FileV) -> bool {
    let plain = loader::below(root, registry::file_path(f.path));
    ||| f.source_path == plain
    ||| is_absent(disk, plain) && f.source_path == loader::below(
        root,
        registry::mod_file_path(f.path),
    )
}

proof fn first_known(disk: Seq<(Text, ContentV)>, path: Text, from: nat)
    ensures
        match loader::known(disk, path, from) {
            Some(c) => exists|k: int|
                {
                    &&& from <= k < disk.len()
                    &&& #[trigger] disk[k] == (path, c)
                    &&& forall|j: int| from <= j < k ==> (#[trigger] disk[j]).0 != path
                },
            None => forall|j: int| from <= j < disk.len() ==> (#[trigger] disk[j]).0 != path,
        },
    decreases disk.len() - from,
{
    if from < disk.len() {
        if disk[from as int].0 == path {
            assert(disk[from as int] == (path, disk[from as int].1));
        } else {
            first_known(disk, path, from + 1);
            if let Some(c) = loader::known(disk, path, from + 1) {
                let k = choose|k: int|
                    {
                        &&& from + 1 <= k < disk.len()
                        &&& #[trigger] disk[k] == (path, c)
                        &&& forall|j: int| from + 1 <= j < k ==> (#[trigger] disk[j]).0 != path
                    };
                assert(disk[k] == (path, c));
                assert forall|j: int| from <= j < k implies (#[trigger] disk[j]).0 != path by {}
            }
        }
    }
}

/// Whether a file, other than the entry file, is where it has to be and is
/// referred to by one of the files before it.
spec fn is_due(disk: Seq<(Text, ContentV)>, root: Text, files: Seq<FileV>, i: int) -> bool {
    &&& lies_below(disk, root, files[i])
    &&& exists|j: int| 0 <= j < i && file_refers_to(#[trigger] files[j], files[i].path)
}

/// What holds of the files from `from` on, when those in `done` are loaded.
spec fn complete(
    disk: Seq<(Text, ContentV)>,
    root: Text,
    files: Seq<FileV>,
    done: Seq<Seq<Text>>,
    from: int,
) -> bool {
    &&& forall|i: int, m: Seq<Text>|
        from <= i < files.len() && #[trigger] file_refers_to(files[i], m) ==> done.contains(m)
    &&& forall|i: int|
        from <= i < files.len() ==> holds(disk, (#[trigger] files[i]).source_path, files[i].src)
}

spec fn have_files(files: Seq<FileV>, done: Seq<Seq<Text>>) -> bool {
    forall|m: Seq<Text>| #[trigger]
        done.contains(m) ==> exists|i: int| 0 <= i < files.len() && (#[trigger] files[i]).path == m
}

spec fn grows(a: Seq<Seq<Text>>, b: Seq<Seq<Text>>) -> bool {
    forall|m: Seq<Text>| #[trigger] a.contains(m) ==> b.contains(m)
}

spec fn prefix_kept(a: Seq<FileV>, b: Seq<FileV>) -> bool {
    a.len() <= b.len() && forall|i: int| 0 <= i < a.len() ==> #[trigger] b[i] == a[i]
}

/// Whether every file from `from` on is due.
spec fn all_due(disk: Seq<(Text, ContentV)>, root: Text, files: Seq<FileV>, from: int) -> bool {
    forall|i: int| from <= i < files.len() ==> #[trigger] is_due(disk, root, files, i)
}

proof fn module_is_complete(
    disk: Seq<(Text, ContentV)>,
    root: Text,
    path: Seq<Text>,
    file: Text,
    files: Seq<FileV>,
    loaded: Seq<Seq<Text>>,
    open: Seq<Seq<Text>>,
    fuel: nat,
)
    requires
        have_files(files, loaded),
    ensures
        match loader::load_module(disk, root, path, file, files, loaded, open, fuel) {
            LoadV::Done(fs, done) => {
                &&& prefix_kept(files, fs)
                &&& grows(loaded, done)
                &&& done.contains(path)
                &&& have_files(fs, done)
                &&& complete(disk, root, fs, done, files.len() as int)
                &&& all_due(disk, root, fs, (files.len() + 1) as int)
                &&& fs.len() > files.len() ==> fs[files.len() as int].path == path && fs[files.len() as int].source_path
                    == file
            },
            _ => true,
        },
    decreases fuel, 0nat,
{
    if fuel > 0 && !open.contains(path) && !loaded.contains(path) {
        if let Some(ContentV::Text(src)) = loader::known(disk, file, 0) {
            if let Ok(items) = prelude::parse_result(src) {
                let one = FileV { path, source_path: file, src };
                let fs = files.push(one);
                let way = open.push(path);
                let mods = loader::referenced(items, items.len());
                first_known(disk, file, 0);
                let at = choose|k: int|
                    {
                        &&& 0 <= k < disk.len()
                        &&& #[trigger] disk[k] == (file, ContentV::Text(src))
                        &&& forall|j: int| 0 <= j < k ==> (#[trigger] disk[j]).0 != file
                    };
                assert(holds(disk, file, src)) by {
                    assert(disk[at] == (file, ContentV::Text(src)));
                }
                assert(have_files(fs, loaded)) by {
                    assert forall|m: Seq<Text>| #[trigger] loaded.contains(m) implies exists|i: int|
                        0 <= i < fs.len() && (#[trigger] fs[i]).path == m by {
                        let i = choose|i: int|
                            0 <= i < files.len() && (#[trigger] files[i]).path == m;
                        assert(fs[i].path == m);
                    }
                }
                referenced_modules_are_imported(items);
                assert(fs[files.len() as int] == one);
                assert forall|m: Seq<Text>| #[trigger] mods.contains(m) implies file_refers_to(
                    fs[files.len() as int],
                    m,
                ) by {}
                imports_are_complete(
                    disk,
                    root,
                    mods,
                    0,
                    fs,
                    loaded,
                    way,
                    (fuel - 1) as nat,
                    files.len() as int,
                );
                match loader::load_imports(
                    disk,
                    root,
                    mods,
                    0,
                    fs,
                    loaded,
                    way,
                    (fuel - 1) as nat,
                ) {
                    LoadV::Done(gs, done) => {
                        let all = done.push(path);
                        assert(all[done.len() as int] == path);
                        assert(grows(done, all)) by {
                            assert forall|m: Seq<Text>| #[trigger] done.contains(m) implies all.contains(
                                m,
                            ) by {
                                assert(all[done.index_of(m)] == m);
                            }
                        }
                        assert(gs[files.len() as int] == one);
                        assert forall|m: Seq<Text>| #[trigger] all.contains(m) implies exists|i: int|
                            0 <= i < gs.len() && (#[trigger] gs[i]).path == m by {
                            let k = all.index_of(m);
                            if k < done.len() {
                                assert(done[k] == m);
                                assert(done.contains(m));
                            } else {
                                assert(gs[files.len() as int].path == m);
                            }
                        }
                        assert forall|i: int, m: Seq<Text>|
                            files.len() <= i < gs.len() && #[trigger] file_refers_to(
                                gs[i],
                                m,
                            ) implies all.contains(m) by {
                            if i == files.len() {
                                assert(mods.contains(m));
                                assert(mods[mods.index_of(m)] == m);
                            }
                            assert(done.contains(m));
                        }
                        assert forall|i: int| 0 <= i < files.len() implies #[trigger] gs[i]
                            == files[i] by {
                            assert(gs[i] == fs[i]);
                        }
                    },
                    _ => {},
                }
            }
        }
    }
}

proof fn imports_are_complete(
    disk: Seq<(Text, ContentV)>,
    root: Text,
    mods: Seq<Seq<Text>>,
    k: nat,
    files: Seq<FileV>,
    loaded: Seq<Seq<Text>>,
    open: Seq<Seq<Text>>,
    fuel: nat,
    by: int,
)
    requires
        have_files(files, loaded),
        0 <= by < files.len(),
        forall|m: Seq<Text>| #[trigger] mods.contains(m) ==> file_refers_to(files[by], m),
    ensures
        match loader::load_imports(disk, root, mods, k, files, loaded, open, fuel) {
            LoadV::Done(fs, done) => {
                &&& prefix_kept(files, fs)
                &&& grows(loaded, done)
                &&& forall|n: int| k <= n < mods.len() ==> done.contains(#[trigger] mods[n])
                &&& have_files(fs, done)
                &&& complete(disk, root, fs, done, files.len() as int)
                &&& all_due(disk, root, fs, files.len() as int)
            },
            _ => true,
        },
    decreases fuel, mods.len() - k + 1,
{
    if k < mods.len() {
        let m = mods[k as int];
        if let FoundV::At(file) = loader::found(disk, root, m) {
            module_is_complete(disk, root, m, file, files, loaded, open, fuel);
            if let LoadV::Done(fs, done) = loader::load_module(
                disk,
                root,
                m,
                file,
                files,
                loaded,
                open,
                fuel,
            ) {
                assert(fs[by] == files[by]);
                assert(mods.contains(m));
                imports_are_complete(disk, root, mods, k + 1, fs, done, open, fuel, by);
                if fs.len() > files.len() {
                    let plain = loader::below(root, registry::file_path(m));
                    first_known(disk, plain, 0);
                    assert(lies_below(disk, root, fs[files.len() as int]));
                    assert(is_due(disk, root, fs, files.len() as int)) by {
                        assert(file_refers_to(fs[by], m));
                    }
                }
                if let LoadV::Done(gs, all) = loader::load_imports(
                    disk,
                    root,
                    mods,
                    k + 1,
                    fs,
                    done,
                    open,
                    fuel,
                ) {
                    assert forall|i: int| files.len() <= i < gs.len() implies #[trigger] is_due(
                        disk,
                        root,
                        gs,
                        i,
                    ) by {
                        if i < fs.len() {
                            assert(is_due(disk, root, fs, i));
                            assert(gs[i] == fs[i]);
                            let j = choose|j: int|
                                0 <= j < i && file_refers_to(#[trigger] fs[j], fs[i].path);
                            assert(gs[j] == fs[j]);
                            assert(file_refers_to(gs[j], gs[i].path));
                        }
                    }
                    assert forall|i: int, n: Seq<Text>|
                        files.len() <= i < gs.len() && #[trigger] file_refers_to(
                            gs[i],
                            n,
                        ) implies all.contains(n) by {
                        if i < fs.len() {
                            assert(gs[i] == fs[i]);
                            assert(file_refers_to(fs[i], n));
                            assert(done.contains(n));
                        }
                    }
                    assert forall|i: int| files.len() <= i < gs.len() implies holds(
                        disk,
                        (#[trigger] gs[i]).source_path,
                        gs[i].src,
                    ) by {
                        if i < fs.len() {
                            assert(gs[i] == fs[i]);
                        }
                    }
                    assert forall|i: int| 0 <= i < files.len() implies #[trigger] gs[i]
                        == files[i] by {
                        assert(fs[i] == files[i]);
                    }
                    assert forall|n: int| k <= n < mods.len() implies all.contains(
                        #[trigger] mods[n],
                    ) by {
                        if n == k {
                            assert(done.contains(m));
                        }
                    }
                }
            }
        }
    }
}

/// A loaded program is the entry file with all that it needs and nothing
/// else: every module that a file of it imports something from has a file in
/// it, and every file but the first belongs to a module that a file before it
/// imports something from, lies where that module has to lie, and holds what
/// the disk has there.
pub proof fn loaded_programs_are_closed(
    disk: Seq<(Text, ContentV)>,
    root: Text,
    entry: Text,
    fuel: nat,
)
    ensures
        match loader::load_module(
            disk,
            root,
            Seq::empty(),
            entry,
            Seq::empty(),
            Seq::empty(),
            Seq::empty(),
            fuel,
        ) {
            LoadV::Done(files, _) => {
                &&& files.len() > 0
                &&& files[0].path == Seq::<Text>::empty()
                &&& files[0].source_path == entry
                &&& forall|i: int|
                    0 <= i < files.len() ==> holds(
                        disk,
                        (#[trigger] files[i]).source_path,
                        files[i].src,
                    )
                &&& forall|i: int, m: Seq<Text>|
                    0 <= i < files.len() && #[trigger] file_refers_to(files[i], m) ==> exists|
                        j: int,
                    |
                        0 <= j < files.len() && (#[trigger] files[j]).path == m
                &&& forall|i: int|
                    0 < i < files.len() ==> lies_below(disk, root, #[trigger] files[i]) && exists|
                        j: int,
                    |
                        0 <= j < i && file_refers_to(#[trigger] files[j], files[i].path)
            },
            _ => true,
        },
{
    let none = Seq::<Seq<Text>>::empty();
    loader::every_module_is_loaded_once(disk, root, entry, fuel);
    module_is_complete(disk, root, Seq::empty(), entry, Seq::empty(), none, none, fuel);
    if let LoadV::Done(files, done) = loader::load_module(
        disk,
        root,
        Seq::empty(),
        entry,
        Seq::empty(),
        none,
        none,
        fuel,
    ) {
        assert forall|i: int, m: Seq<Text>|
            0 <= i < files.len() && #[trigger] file_refers_to(files[i], m) implies exists|j: int|
            0 <= j < files.len() && (#[trigger] files[j]).path == m by {
            assert(done.contains(m));
        }
        assert forall|i: int| 0 < i < files.len() implies lies_below(
            disk,
            root,
            #[trigger] files[i],
        ) && exists|j: int| 0 <= j < i && file_refers_to(#[trigger] files[j], files[i].path) by {
            assert(is_due(disk, root, files, i));
        }
    }
}

} // verus!
