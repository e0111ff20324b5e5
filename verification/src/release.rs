//! Building and packaging a release: what was asked for, and for which machine.
use crate::json::{self, Scalar, ScalarView, Table, TableView};
use crate::text::{self, chars_of, contains, replace, split, starts_with, text_of};
use vstd::prelude::*;
use vstd::string::*;

verus! {

/// What is to be built: the machine that builds, the target, and whether the
/// program is packed into an archive.
#[derive(Debug, PartialEq, Eq)]
pub struct Plan {
    pub host: String,
    pub target: String,
    pub dist: bool,
}

#[verifier::ext_equal]
pub struct PlanView {
    pub host: Seq<char>,
    pub target: Seq<char>,
    pub dist: bool,
}

impl View for Plan {
    type V = PlanView;

    open spec fn view(&self) -> PlanView {
        PlanView { host: self.host@, target: self.target@, dist: self.dist }
    }
}

#[derive(Debug, PartialEq, Eq)]
pub enum PlanError {
    Usage,
    NoHost,
    NoTarget,
    Unexpected,
    NotLinux,
    Architecture(String),
}

#[verifier::ext_equal]
pub enum PlanErrorView {
    Usage,
    NoHost,
    NoTarget,
    Unexpected,
    NotLinux,
    Architecture(Seq<char>),
}

impl View for PlanError {
    type V = PlanErrorView;

    open spec fn view(&self) -> PlanErrorView {
        match self {
            PlanError::Usage => PlanErrorView::Usage,
            PlanError::NoHost => PlanErrorView::NoHost,
            PlanError::NoTarget => PlanErrorView::NoTarget,
            PlanError::Unexpected => PlanErrorView::Unexpected,
            PlanError::NotLinux => PlanErrorView::NotLinux,
            PlanError::Architecture(arch) => PlanErrorView::Architecture(arch@),
        }
    }
}

impl PlanErrorView {
    pub open spec fn message(self) -> Seq<char> {
        match self {
            PlanErrorView::Usage => "usage: cargo xtask [build|dist] [--target TARGET]"@,
            PlanErrorView::NoHost => "rust host triple"@,
            PlanErrorView::NoTarget => "missing --target value"@,
            PlanErrorView::Unexpected => "unexpected build argument"@,
            PlanErrorView::NotLinux => "release packaging currently supports Linux"@,
            PlanErrorView::Architecture(arch) => "unsupported release architecture: "@ + arch,
        }
    }
}

impl PlanError {
    pub fn message(&self) -> (r: String)
        ensures
            r@ == self@.message(),
    {
        match self {
            PlanError::Usage => text::text("usage: cargo xtask [build|dist] [--target TARGET]"),
            PlanError::NoHost => text::text("rust host triple"),
            PlanError::NoTarget => text::text("missing --target value"),
            PlanError::Unexpected => text::text("unexpected build argument"),
            PlanError::NotLinux => text::text("release packaging currently supports Linux"),
            PlanError::Architecture(arch) => {
                let mut out: String = text::text("unsupported release architecture: ");
                out.append(arch.as_str());
                out
            },
        }
    }
}

/// What follows `host: ` in the first line that begins with it. A carriage return
/// before the end of a line is no part of it.
pub open spec fn host_in(lines: Seq<Seq<char>>) -> Option<Seq<char>>
    decreases lines.len(),
{
    if lines.len() == 0 {
        None
    } else if text::begins(lines[0], "host: "@) {
        let rest = lines[0].skip("host: "@.len() as int);
        if lines.len() > 1 && rest.len() > 0 && rest.last() == '\r' {
            Some(rest.drop_last())
        } else {
            Some(rest)
        }
    } else {
        host_in(lines.drop_first())
    }
}

/// The machine that a compiler says it runs on.
pub fn host_triple(info: &str) -> (r: Option<String>)
    ensures
        match r {
            Some(host) => host_in(text::pieces(info@, '\n')) == Some(host@),
            None => host_in(text::pieces(info@, '\n')) is None,
        },
{
    let lines: Vec<Vec<char>> = split(chars_of(info).as_slice(), '\n');
    let prefix: Vec<char> = chars_of("host: ");
    let ghost all = text::pieces(info@, '\n');
    let mut i: usize = 0;
    assert(all.skip(0) =~= all);
    while i < lines.len()
        invariant
            i <= lines@.len(),
            all == text::each(lines@),
            all == text::pieces(info@, '\n'),
            prefix@ == "host: "@,
            host_in(all) == host_in(all.skip(i as int)),
        decreases lines@.len() - i,
    {
        let line: &[char] = lines[i].as_slice();
        assert(all.skip(i as int)[0] == line@);
        if starts_with(line, prefix.as_slice()) {
            let mut end: usize = line.len();
            if i + 1 < lines.len() && end > prefix.len() && line[end - 1] == '\r' {
                end = end - 1;
            }
            let rest: &[char] = vstd::slice::slice_subrange(line, prefix.len(), end);
            proof {
                assert(all.skip(i as int).len() == lines@.len() - i);
                let whole = line@.skip(prefix@.len() as int);
                assert(end == line@.len() ==> rest@ =~= whole);
                assert(end < line@.len() ==> rest@ =~= whole.drop_last());
            }
            return Some(text_of(rest));
        }
        assert(all.skip(i as int).drop_first() =~= all.skip(i + 1));
        i = i + 1;
    }
    assert(all.skip(i as int).len() == 0);
    None
}

/// The plan for these arguments.
pub open spec fn planned(args: Seq<Seq<char>>, host: Option<Seq<char>>) -> Result<
    PlanView,
    PlanErrorView,
> {
    if args.len() > 0 && args[0] != "build"@ && args[0] != "dist"@ {
        Err(PlanErrorView::Usage)
    } else {
        let dist = args.len() > 0 && args[0] == "dist"@;
        match host {
            None => Err(PlanErrorView::NoHost),
            Some(host) => if args.len() < 2 {
                Ok(PlanView { host, target: host, dist })
            } else if args[1] != "--target"@ {
                Err(PlanErrorView::Usage)
            } else if args.len() < 3 {
                Err(PlanErrorView::NoTarget)
            } else if args.len() > 3 {
                Err(PlanErrorView::Unexpected)
            } else {
                Ok(PlanView { host, target: args[2], dist })
            },
        }
    }
}

pub open spec fn plan_outcome(r: Result<Plan, PlanError>) -> Result<PlanView, PlanErrorView> {
    match r {
        Ok(plan) => Ok(plan@),
        Err(error) => Err(error@),
    }
}

pub open spec fn argument_views(args: Seq<String>) -> Seq<Seq<char>> {
    args.map_values(|arg: String| arg@)
}

/// What to build, by the arguments and what the compiler says of itself.
pub fn plan(args: &Vec<String>, info: &str) -> (r: Result<Plan, PlanError>)
    ensures
        plan_outcome(r) == planned(
            argument_views(args@),
            host_in(text::pieces(info@, '\n')),
        ),
{
    let mut dist: bool = false;
    let ghost all = argument_views(args@);
    if args.len() > 0 {
        assert(all[0] == args@[0]@);
        dist = text::same(args[0].as_str(), "dist");
        if !dist && !text::same(args[0].as_str(), "build") {
            return Err(PlanError::Usage);
        }
    }
    proof {
        reveal_strlit("dist");
        reveal_strlit("build");
        assert("dist"@.len() != "build"@.len());
    }
    let host: String = match host_triple(info) {
        Some(host) => host,
        None => return Err(PlanError::NoHost),
    };
    if args.len() < 2 {
        let target: String = text::text(host.as_str());
        return Ok(Plan { host, target, dist });
    }
    assert(all[1] == args@[1]@);
    if !text::same(args[1].as_str(), "--target") {
        return Err(PlanError::Usage);
    }
    if args.len() < 3 {
        return Err(PlanError::NoTarget);
    }
    assert(all[2] == args@[2]@);
    if args.len() > 3 {
        return Err(PlanError::Unexpected);
    }
    let target: String = text::text(args[2].as_str());
    Ok(Plan { host, target, dist })
}

/// The directory that a table names at its head, or why there is no table.
pub open spec fn directory_in(read: Result<TableView, Seq<char>>) -> Result<
    Option<Seq<char>>,
    Seq<char>,
> {
    match read {
        Ok(table) => match table.head {
            ScalarView::Text(directory) => Ok(Some(directory)),
            _ => Ok(None),
        },
        Err(message) => Err(message),
    }
}

pub open spec fn directory_outcome(r: Result<Option<String>, String>) -> Result<
    Option<Seq<char>>,
    Seq<char>,
> {
    match r {
        Ok(Some(directory)) => Ok(Some(directory@)),
        Ok(None) => Ok(None),
        Err(message) => Err(message@),
    }
}

/// The directory that a table names at its head.
pub fn named_directory(table: Table) -> (r: Option<String>)
    ensures
        match r {
            Some(directory) => table@.head == ScalarView::Text(directory@),
            None => !(table@.head is Text),
        },
{
    match table.head {
        Scalar::Text(directory) => Some(directory),
        _ => None,
    }
}

/// The directory that Cargo builds in, by its metadata: the text that stands there
/// under `target_directory`, nothing where none does, and an error where the
/// metadata is no JSON.
pub fn target_directory(metadata: &str) -> (r: Result<Option<String>, String>)
    ensures
        directory_outcome(r) == directory_in(
            json::json_table(metadata@, "target_directory"@, "packages"@),
        ),
{
    match json::parse(metadata, "target_directory", "packages") {
        Ok(table) => Ok(named_directory(table)),
        Err(message) => Err(message),
    }
}

/// Text in upper case, by Unicode's rules.
pub uninterp spec fn uppercase_text(s: Seq<char>) -> Seq<char>;

/// `str::to_uppercase` of std: a function of the text.
#[verifier::external_body]
fn uppercase(s: &str) -> (r: String)
    ensures
        r@ == uppercase_text(s@),
{
    s.to_uppercase()
}

/// The variable that names the linker for a target.
pub fn linker_key(triple: &str) -> (r: String)
    ensures
        r@ == "CARGO_TARGET_"@ + uppercase_text(text::replaced(triple@, '-', '_')) + "_LINKER"@,
{
    let plain: String = text_of(replace(chars_of(triple).as_slice(), '-', '_').as_slice());
    linker_variable(uppercase(plain.as_str()).as_str())
}

/// The variable that names the linker, for a target that is written in upper case.
pub fn linker_variable(name: &str) -> (r: String)
    ensures
        r@ == "CARGO_TARGET_"@ + name@ + "_LINKER"@,
{
    let mut out: String = text::text("CARGO_TARGET_");
    out.append(name);
    out.append("_LINKER");
    out
}

pub open spec fn ends(s: Seq<char>, suffix: Seq<char>) -> bool {
    suffix.len() <= s.len() && s.skip(s.len() - suffix.len()) == suffix
}

/// Whether a target is linked with the linker that comes with the compiler.
pub fn bundled_linker(target: &str) -> (r: bool)
    ensures
        r == ends(target@, "-musl"@),
{
    let s: Vec<char> = chars_of(target);
    let suffix: Vec<char> = chars_of("-musl");
    if suffix.len() > s.len() {
        return false;
    }
    let tail: &[char] = vstd::slice::slice_subrange(s.as_slice(), s.len() - suffix.len(), s.len());
    assert(tail@ =~= target@.skip(target@.len() - suffix@.len()));
    text::same_chars(tail, suffix.as_slice())
}

/// The architecture of a target that can be packed.
pub open spec fn packed_for(target: Seq<char>) -> Result<Seq<char>, PlanErrorView> {
    let arch = text::pieces(target, '-')[0];
    if !text::occurs(target, "linux"@) {
        Err(PlanErrorView::NotLinux)
    } else if arch != "x86_64"@ && arch != "aarch64"@ {
        Err(PlanErrorView::Architecture(arch))
    } else {
        Ok(arch)
    }
}

/// The architecture that an archive is for.
pub fn release_arch(target: &str) -> (r: Result<String, PlanError>)
    ensures
        match r {
            Ok(arch) => packed_for(target@) == Ok::<Seq<char>, PlanErrorView>(arch@),
            Err(error) => packed_for(target@) == Err::<Seq<char>, PlanErrorView>(error@),
        },
{
    let s: Vec<char> = chars_of(target);
    let linux: Vec<char> = chars_of("linux");
    if !contains(s.as_slice(), linux.as_slice()) {
        return Err(PlanError::NotLinux);
    }
    let parts: Vec<Vec<char>> = split(s.as_slice(), '-');
    let arch: String = text_of(parts[0].as_slice());
    assert(text::each(parts@)[0] == parts@[0]@);
    if !text::same(arch.as_str(), "x86_64") && !text::same(arch.as_str(), "aarch64") {
        return Err(PlanError::Architecture(arch));
    }
    Ok(arch)
}

/// The name of the archive.
pub fn archive_name(arch: &str) -> (r: String)
    ensures
        r@ == "adb-input-linux-"@ + arch@ + ".tar.gz"@,
{
    let mut out: String = text::text("adb-input-linux-");
    out.append(arch);
    out.append(".tar.gz");
    out
}

/// Without a target, the build is for the machine that builds.
pub proof fn law_builds_for_the_host_by_default(args: Seq<Seq<char>>, host: Seq<char>)
    requires
        args.len() < 2,
    ensures
        planned(args, Some(host)) matches Ok(plan) ==> plan.target == host && plan.host == host,
        args.len() == 0 ==> planned(args, Some(host)) == Ok::<PlanView, PlanErrorView>(
            PlanView { host, target: host, dist: false },
        ),
{
}

/// A target that is named is built for, and `dist` alone packs what was built.
pub proof fn law_named_targets_are_built(
    verb: Seq<char>,
    option: Seq<char>,
    target: Seq<char>,
    host: Seq<char>,
)
    ensures
        verb == "build"@ && option == "--target"@ ==> planned(
            seq![verb, option, target],
            Some(host),
        ) == Ok::<PlanView, PlanErrorView>(PlanView { host, target, dist: false }),
        verb == "dist"@ && option == "--target"@ ==> planned(
            seq![verb, option, target],
            Some(host),
        ) == Ok::<PlanView, PlanErrorView>(PlanView { host, target, dist: true }),
        verb == "dist"@ ==> planned(seq![verb], Some(host)) == Ok::<PlanView, PlanErrorView>(
            PlanView { host, target: host, dist: true },
        ),
        verb != "build"@ && verb != "dist"@ ==> planned(seq![verb, option, target], Some(host))
            == Err::<PlanView, PlanErrorView>(PlanErrorView::Usage),
        (verb == "build"@ || verb == "dist"@) && option != "--target"@ ==> planned(
            seq![verb, option, target],
            Some(host),
        ) == Err::<PlanView, PlanErrorView>(PlanErrorView::Usage),
        (verb == "build"@ || verb == "dist"@) && option == "--target"@ ==> planned(
            seq![verb, option],
            Some(host),
        ) == Err::<PlanView, PlanErrorView>(PlanErrorView::NoTarget),
        (verb == "build"@ || verb == "dist"@) && option == "--target"@ ==> planned(
            seq![verb, option, target, target],
            Some(host),
        ) == Err::<PlanView, PlanErrorView>(PlanErrorView::Unexpected),
{
    reveal_strlit("build");
    reveal_strlit("dist");
    assert("build"@.len() != "dist"@.len());
}

/// What is packed is for Linux, on one of the two architectures, which its target begins
/// with.
pub proof fn law_packages_are_for_linux(target: Seq<char>)
    ensures
        packed_for(target) matches Ok(arch) ==> {
            &&& text::occurs(target, "linux"@)
            &&& arch == text::pieces(target, '-')[0]
            &&& arch == "x86_64"@ || arch == "aarch64"@
        },
        text::occurs(target, "linux"@) && (text::pieces(target, '-')[0] == "x86_64"@
            || text::pieces(target, '-')[0] == "aarch64"@) ==> packed_for(target) is Ok,
{
}

} // verus!
