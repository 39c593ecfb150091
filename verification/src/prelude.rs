//! The entry points of the frontend.

use vstd::prelude::*;

use crate::api::ast::{Item, ItemV};
use crate::api::token::Token;
use crate::cfg_filter;
use crate::cfg_filter::{filter_program, CfgTarget};
use crate::error_handle;
use crate::error_handle::{ErrorV, LakeError, LakeErrors, SyntaxError, SyntaxErrorV};
use crate::lexer;
use crate::loader;
use crate::loader::{
    DiskFile, FileV, Loading, ModuleV, ParseErrors, ParsedProgram, ProgramSources,
};
use crate::lowering::program as lower;
use crate::lowering::program::{lower_program, mangle_program};
use crate::lowering::pure;
use crate::mono::program as mono;
use crate::mono::program::monomorphise_program;
use crate::panic_loc;
use crate::panic_loc::inject_panic_location;
use crate::parser;
use crate::populate;
use crate::registry;
use crate::registry::{ProgramRegistry, RegistryV};
use crate::span::Spanned;
use crate::text::Text;

verus! {

/// The diagnostic of one syntax error, with a code.
pub open spec fn syntax_report(e: SyntaxErrorV, code: Text) -> Seq<ErrorV> {
    seq![ErrorV { code: Some(code), ..error_handle::syntax_diagnostic(e) }]
}

/// What a source text parses to.  Errors of the lexer have the code `L001`,
/// those of the parser `P001`.
pub open spec fn parse_result(src: Text) -> Result<Seq<Spanned<ItemV>>, Seq<ErrorV>> {
    match lexer::lexed(src) {
        Some(ts) => match parser::parsed(ts) {
            Some(items) => Ok(items),
            None => Err(syntax_report(parser::parse_error(ts), "P001"@)),
        },
        None => Err(syntax_report(lexer::lex_error(src), "L001"@)),
    }
}

fn lex_report(es: &Vec<SyntaxError>, Ghost(e): Ghost<SyntaxErrorV>) -> (r: LakeErrors)
    requires
        es.deep_view() == seq![e],
    ensures
        r.deep_view() == syntax_report(e, "L001"@),
{
    let r = LakeErrors::from_lex_errs(es);
    proof {
        let one = seq![e];
        assert(one.len() == 1);
        assert(es.deep_view().len() == es@.len());
        assert(es.deep_view()[0] == es@[0].deep_view());
        assert(r.deep_view() =~= syntax_report(e, "L001"@));
    }
    r
}

fn parse_report(es: &Vec<SyntaxError>, Ghost(e): Ghost<SyntaxErrorV>) -> (r: LakeErrors)
    requires
        es.deep_view() == seq![e],
    ensures
        r.deep_view() == syntax_report(e, "P001"@),
{
    let r = LakeErrors::from_parse_errs(es);
    proof {
        let one = seq![e];
        assert(one.len() == 1);
        assert(es.deep_view().len() == es@.len());
        assert(es.deep_view()[0] == es@[0].deep_view());
        assert(r.deep_view() =~= syntax_report(e, "P001"@));
    }
    r
}

/// Parses a source file into its items.
pub fn parse(_path: &str, src: &str) -> (r: Result<Vec<Spanned<Item>>, LakeErrors>)
    ensures
        match r {
            Ok(items) => parse_result(src@) == Ok::<_, Seq<ErrorV>>(items.deep_view()),
            Err(es) => parse_result(src@) == Err::<Seq<Spanned<ItemV>>, _>(es.deep_view()),
        },
{
    match lexer::lexer(src) {
        Ok(tokens) => match parser::program(&tokens) {
            Ok(items) => Ok(items),
            Err(es) => Err(parse_report(&es, Ghost(parser::parse_error(tokens.deep_view())))),
        },
        Err(es) => Err(lex_report(&es, Ghost(lexer::lex_error(src@)))),
    }
}

/// Lexes and parses a source file and keeps the tokens, whether or not the
/// parser accepts them.
pub fn build_ast(_path: &str, src: &str) -> (r: Result<
    (Vec<Spanned<Token>>, Vec<Spanned<Item>>),
    (Vec<Spanned<Token>>, LakeErrors),
>)
    ensures
        match r {
            Ok((tokens, items)) => {
                &&& lexer::lexed(src@) == Some(tokens.deep_view())
                &&& parse_result(src@) == Ok::<_, Seq<ErrorV>>(items.deep_view())
            },
            Err((tokens, es)) => {
                &&& parse_result(src@) == Err::<Seq<Spanned<ItemV>>, _>(es.deep_view())
                &&& match lexer::lexed(src@) {
                    Some(ts) => tokens.deep_view() == ts,
                    None => tokens@.len() == 0,
                }
            },
        },
{
    match lexer::lexer(src) {
        Ok(tokens) => match parser::program(&tokens) {
            Ok(items) => Ok((tokens, items)),
            Err(es) => {
                let report = parse_report(&es, Ghost(parser::parse_error(tokens.deep_view())));
                Err((tokens, report))
            },
        },
        Err(es) => Err((Vec::new(), lex_report(&es, Ghost(lexer::lex_error(src@))))),
    }
}

// ── whole programs ─────────────────────────────────────────────────────────

/// A program that is ready for a backend: its modules, with machines under
/// their symbols, and the registry they were looked up in.
pub struct LakeProgram {
    pub program: ParsedProgram,
    pub registry: ProgramRegistry,
}

/// The errors of the first `n` files, each with its file.
pub open spec fn flattened(per_file: Seq<(Text, Seq<ErrorV>)>, n: nat) -> Seq<ErrorV>
    decreases n,
{
    if n == 0 {
        Seq::empty()
    } else {
        flattened(per_file, (n - 1) as nat) + error_handle::tagged_all(
            per_file[n - 1].1,
            per_file[n - 1].0,
        )
    }
}

/// The paths and texts of files.
pub open spec fn file_texts(files: Seq<FileV>) -> Seq<(Text, Text)> {
    files.map_values(|f: FileV| (f.source_path, f.src))
}

/// The modules with the places of their `panic`s and `assert`s.
pub open spec fn located(mods: Seq<ModuleV>, files: Seq<(Text, Text)>) -> Seq<ModuleV> {
    Seq::new(mods.len(), |i: int| panic_loc::located_module(mods[i], files))
}

/// What lowering is given of the files of a program: the program without
/// generic items, and the registry of it.  Each stage stops the pipeline if
/// it has something to complain about: parsing, `@cfg` filtering, the places
/// of `panic` and `assert`, registration, monomorphisation, registration of
/// the copies.
pub open spec fn prepared(files: Seq<FileV>, arch: Text) -> Result<
    (Seq<ModuleV>, RegistryV),
    Seq<ErrorV>,
> {
    let (mods, syntax) = loader::parsed_files(files, files.len());
    let (chosen, cfg) = cfg_filter::filtered_modules(mods, mods.len(), arch);
    let kept = located(chosen, file_texts(files));
    let fresh = registry::fresh_registry(registry::builtin_fns());
    let first = populate::populated(fresh, kept);
    let (copies, generics) = mono::monomorphised(kept, first.reg);
    let second = populate::populated(fresh, copies);
    if syntax.len() > 0 {
        Err(flattened(syntax, syntax.len()))
    } else if cfg.len() > 0 {
        Err(cfg)
    } else if first.errors.len() > 0 {
        Err(first.errors)
    } else if generics.len() > 0 {
        Err(generics)
    } else if second.errors.len() > 0 {
        Err(second.errors)
    } else {
        Ok((copies, second.reg))
    }
}

/// What is built from the files of a program.  After what comes before it,
/// the program is lowered and registered once more; machines get their
/// symbols last.
pub open spec fn built(files: Seq<FileV>, arch: Text, inline_pure: bool) -> Result<
    (Seq<ModuleV>, RegistryV),
    Seq<ErrorV>,
> {
    match prepared(files, arch) {
        Err(es) => Err(es),
        Ok((copies, reg)) => {
            let low = lower::lowered_program(copies, reg, inline_pure);
            let third = populate::populated(reg, low);
            if third.errors.len() > 0 {
                Err(third.errors)
            } else {
                Ok((low.map_values(|m: ModuleV| lower::mangled_module(third.reg, m)), third.reg))
            }
        },
    }
}

fn flatten(errs: ParseErrors) -> (r: LakeErrors)
    ensures
        r.deep_view() == flattened(errs.deep_view(), errs.deep_view().len()),
{
    let ghost all = errs.deep_view();
    let ghost list = errs.per_file@;
    let mut bag = LakeErrors(Vec::new());
    proof {
        assert(bag.deep_view() =~= Seq::<ErrorV>::empty());
    }
    for f in it: errs.per_file
        invariant
            it.seq() == list,
            all.len() == list.len(),
            forall|j: int|
                0 <= j < list.len() ==> all[j] == ((#[trigger] list[j]).0@, list[j].1.deep_view()),
            bag.deep_view() == flattened(all, it.index() as nat),
    {
        proof {
            assert(all[it.index() as int] == (f.0@, f.1.deep_view()));
        }
        bag.extend(f.1.tag_source_path(f.0.as_str()));
    }
    bag
}

proof fn filtering_keeps_modules(mods: Seq<ModuleV>, n: nat, arch: Text)
    requires
        n <= mods.len(),
    ensures
        cfg_filter::filtered_modules(mods, n, arch).0.len() == n,
    decreases n,
{
    if n > 0 {
        filtering_keeps_modules(mods, (n - 1) as nat, arch);
    }
}

proof fn parsing_adds_no_modules(files: Seq<FileV>, n: nat)
    requires
        n <= files.len(),
    ensures
        loader::parsed_files(files, n).0.len() <= n,
    decreases n,
{
    if n > 0 {
        parsing_adds_no_modules(files, (n - 1) as nat);
    }
}

fn texts_of(sources: &ProgramSources) -> (r: Vec<(String, String)>)
    ensures
        r.deep_view() == file_texts(sources.file_views()),
{
    let files = sources.files();
    let mut out: Vec<(String, String)> = Vec::new();
    let mut i: usize = 0;
    while i < files.len()
        invariant
            i <= files.len(),
            out@.len() == i,
            forall|j: int|
                0 <= j < i ==> (#[trigger] out@[j]).0@ == files@[j].source_path@ && out@[j].1@
                    == files@[j].src@,
        decreases files.len() - i,
    {
        out.push((files[i].source_path.clone(), files[i].src.clone()));
        i = i + 1;
    }
    proof {
        assert(out.deep_view() =~= file_texts(files.deep_view()));
    }
    out
}

/// Whether modules can still be numbered: ids have 32 bits, and a copy of a
/// program is registered beside it.
pub open spec fn countable(files: Seq<FileV>) -> bool {
    2 * files.len() + 1 < u32::MAX
}

/// The complaint about more modules than there are ids for.
pub open spec fn crowd_error() -> ErrorV {
    error_handle::coded_error(
        "a program has fewer modules than there are module ids"@,
        loader::nowhere(),
        "M006"@,
    )
}

/// What loading and building a program gives: its files and, where it cannot
/// be built, the errors of the stage that has any.
pub open spec fn loaded_and_built(load: loader::LoadV, arch: Text, inline_pure: bool) -> loader::LoadV {
    match load {
        loader::LoadV::Done(files, done) => if countable(files) {
            match built(files, arch, inline_pure) {
                Ok(_) => loader::LoadV::Done(files, done),
                Err(es) => loader::LoadV::Failed(es, files),
            }
        } else {
            loader::LoadV::Failed(seq![crowd_error()], files)
        },
        other => other,
    }
}

fn crowd() -> (r: LakeErrors)
    ensures
        r.deep_view() == seq![crowd_error()],
{
    let span = crate::span::SimpleSpan { start: 0, end: 0 };
    let e = LakeError::new("a program has fewer modules than there are module ids", span).code(
        "M006",
    );
    let ghost ev = e.deep_view();
    let mut es: Vec<LakeError> = Vec::new();
    es.push(e);
    let r = LakeErrors::new(es);
    proof {
        assert(r.deep_view() =~= seq![ev]);
    }
    r
}

/// Loads a program, the entry file and everything it imports, and builds it
/// for a target.  The errors of every stage are reported, and the files are
/// given with them.
pub fn load_and_build(
    entry_path: &str,
    project_root: &str,
    disk: &Vec<DiskFile>,
    target_arch: &str,
    inline_pure: bool,
) -> (r: Loading)
    ensures
        match loaded_and_built(
            loader::load_module(
                disk.deep_view(),
                project_root@,
                Seq::empty(),
                entry_path@,
                Seq::empty(),
                Seq::empty(),
                Seq::empty(),
                u64::MAX as nat,
            ),
            target_arch@,
            inline_pure,
        ) {
            loader::LoadV::Done(files, _) => r is Done && r->Done_0.file_views() == files,
            loader::LoadV::Failed(es, files) => r is Failed && r->Failed_0.deep_view() == es
                && r->Failed_1.file_views() == files,
            loader::LoadV::Needs(f) => r is Needs && r->Needs_0@ == f,
        },
{
    match ProgramSources::load(entry_path, project_root, disk) {
        Loading::Done(sources) => {
            if sources.files().len() < ((u32::MAX - 1) / 2) as usize {
                match build_program_for_target(&sources, target_arch, inline_pure) {
                    Ok(_) => Loading::Done(sources),
                    Err(es) => Loading::Failed(es, sources),
                }
            } else {
                Loading::Failed(crowd(), sources)
            }
        },
        other => other,
    }
}

/// Takes a program from its files for a target to where lowering starts: it
/// is free of generic items, and every module of it is registered.
pub fn prepare_program(sources: &ProgramSources, target_arch: &str) -> (r: Result<
    LakeProgram,
    LakeErrors,
>)
    requires
        2 * sources.file_views().len() + 1 < u32::MAX,
    ensures
        match r {
            Ok(p) => {
                &&& prepared(sources.file_views(), target_arch@) == Ok::<_, Seq<ErrorV>>(
                    (p.program.deep_view(), p.registry.deep_view()),
                )
                &&& p.registry.deep_view().wf()
                &&& pure::all_registered(p.program.deep_view(), p.registry.deep_view())
                &&& p.program.deep_view().len() <= sources.file_views().len()
                &&& p.registry.deep_view().modules.len() <= sources.file_views().len() + 1
            },
            Err(es) => prepared(sources.file_views(), target_arch@) == Err::<
                (Seq<ModuleV>, RegistryV),
                _,
            >(es.deep_view()),
        },
{
    let ghost files = sources.file_views();
    proof {
        parsing_adds_no_modules(files, files.len());
    }
    let parsed = match sources.parse_all() {
        Ok(p) => p,
        Err(errs) => {
            return Err(flatten(errs));
        },
    };
    let ghost mods = parsed.deep_view();
    proof {
        filtering_keeps_modules(mods, mods.len(), target_arch@);
    }
    let (parsed, cfg_errors) = filter_program(parsed, CfgTarget::new(target_arch));
    if cfg_errors.len() > 0 {
        return Err(LakeErrors::new(cfg_errors));
    }
    let texts = texts_of(sources);
    let parsed = inject_panic_location(parsed, &texts);
    let ghost kept = parsed.deep_view();
    let mut first = ProgramRegistry::with_rt();
    let ghost fresh = first.deep_view();
    proof {
        assert(fresh.modules.len() == 1);
        populate::populating_registers_every_module(fresh, kept);
    }
    if let Err(e) = first.populate_from(&parsed) {
        return Err(e);
    }
    let (parsed, mono_errors) = monomorphise_program(parsed, &first);
    proof {
        mono::monomorphising_keeps_modules(kept, first.deep_view());
    }
    if mono_errors.len() > 0 {
        return Err(LakeErrors::new(mono_errors));
    }
    let ghost copies = parsed.deep_view();
    let mut registry = ProgramRegistry::with_rt();
    proof {
        populate::populating_registers_every_module(fresh, copies);
    }
    if let Err(e) = registry.populate_from(&parsed) {
        return Err(e);
    }
    Ok(LakeProgram { program: parsed, registry })
}

/// Builds a program from its files for a target.  `inline_pure` says whether
/// calls of pure machines are expanded in place.  Modules have 32-bit ids,
/// which bounds how many there can be.
pub fn build_program_for_target(
    sources: &ProgramSources,
    target_arch: &str,
    inline_pure: bool,
) -> (r: Result<LakeProgram, LakeErrors>)
    requires
        2 * sources.file_views().len() + 1 < u32::MAX,
    ensures
        match r {
            Ok(p) => built(sources.file_views(), target_arch@, inline_pure) == Ok::<
                _,
                Seq<ErrorV>,
            >((p.program.deep_view(), p.registry.deep_view())),
            Err(es) => built(sources.file_views(), target_arch@, inline_pure) == Err::<
                (Seq<ModuleV>, RegistryV),
                _,
            >(es.deep_view()),
        },
{
    let ready = match prepare_program(sources, target_arch) {
        Ok(p) => p,
        Err(es) => {
            return Err(es);
        },
    };
    let ghost copies = ready.program.deep_view();
    let ghost second = ready.registry.deep_view();
    let mut registry = ready.registry;
    let parsed = lower_program(ready.program, &registry, inline_pure);
    let ghost low = parsed.deep_view();
    proof {
        lower::lowering_keeps_modules(copies, second, inline_pure);
        populate::populating_registers_every_module(second, low);
    }
    if let Err(e) = registry.populate_from(&parsed) {
        return Err(e);
    }
    let program = mangle_program(parsed, &registry);
    Ok(LakeProgram { program, registry })
}

} // verus!
