//! The decisions behind the user-facing commands. Each takes the loaded file
//! and returns what happened; reading, printing and saving are the caller's.
use vstd::prelude::*;
use crate::hostsfile::{
    ManagedHostsFile, Summary, has_kind_host, multi_select, ref_views, remove_spec, select, shown,
};
use crate::line::{HostLine, LineKind, LineView, parse_spec, render};
use crate::text::{join_text, join_with, split_on, split_text, strs};

verus! {

/// The comment written on an added line when the caller gives none.
pub const DEFAULT_COMMENT: &'static str = "Added by hostman";

/// The address `add_local` uses.
pub const LOCAL_IP: &'static str = "127.0.0.1";

/// Why a command made no change.
#[derive(Debug, PartialEq, Eq)]
pub enum CommandError {
    /// Lines already name a requested host; they are given as written.
    Conflict(Vec<String>),
    /// The line built for an addition does not read as an enabled entry.
    ParseFailure(String),
    /// No entry names the host.
    NotFound,
    /// The host is only in disabled entries.
    AlreadyDisabled,
    /// The host is only in enabled entries.
    AlreadyEnabled,
}

pub enum ErrorView {
    Conflict(Seq<Seq<char>>),
    ParseFailure(Seq<char>),
    NotFound,
    AlreadyDisabled,
    AlreadyEnabled,
}

impl View for CommandError {
    type V = ErrorView;

    open spec fn view(&self) -> ErrorView {
        match self {
            CommandError::Conflict(v) => ErrorView::Conflict(strs(v@)),
            CommandError::ParseFailure(s) => ErrorView::ParseFailure(s@),
            CommandError::NotFound => ErrorView::NotFound,
            CommandError::AlreadyDisabled => ErrorView::AlreadyDisabled,
            CommandError::AlreadyEnabled => ErrorView::AlreadyEnabled,
        }
    }
}

pub open spec fn result_view(r: Result<Vec<String>, CommandError>) -> Result<
    Seq<Seq<char>>,
    ErrorView,
> {
    match r {
        Ok(v) => Ok(strs(v@)),
        Err(e) => Err(e@),
    }
}

/// `ls` with each of `names` removed in turn.
pub open spec fn remove_all(ls: Seq<LineView>, names: Seq<Seq<char>>) -> Seq<LineView>
    decreases names.len(),
{
    if names.len() == 0 {
        ls
    } else {
        remove_spec(remove_all(ls, names.drop_last()), names.last())
    }
}

/// The line an addition appends: `ip name.. # comment`.
pub open spec fn candidate(ip: Seq<char>, names: Seq<Seq<char>>, comment: Seq<char>) -> Seq<
    char,
> {
    ip + seq![' '] + join_with(names, seq![' ']) + seq![' ', '#', ' '] + (if comment.len() == 0 {
        DEFAULT_COMMENT@
    } else {
        comment
    })
}

/// Whether `s` reads as an enabled entry.
pub open spec fn reads_as_entry(s: Seq<char>) -> bool {
    parse_spec(s) is Ok && parse_spec(s)->Ok_0.kind == LineKind::Entry
}

/// What `add` returns, and the lines it leaves, for comma-separated `names`.
pub open spec fn add_spec(
    ls: Seq<LineView>,
    ip: Seq<char>,
    names: Seq<char>,
    comment: Seq<char>,
    update: bool,
) -> (Result<Seq<Seq<char>>, ErrorView>, Seq<LineView>) {
    let ns = split_on(names, ',');
    let found = multi_select(ls, ns).map_values(|l: LineView| render(l));
    let line = candidate(ip, ns, comment);
    if found.len() > 0 && !update {
        (Err(ErrorView::Conflict(found)), ls)
    } else if !reads_as_entry(line) {
        (Err(ErrorView::ParseFailure(line)), ls)
    } else {
        (
            Ok(found),
            (if found.len() > 0 {
                remove_all(ls, ns)
            } else {
                ls
            }).push(parse_spec(line)->Ok_0),
        )
    }
}

/// What `show` lists.
pub enum Listing<'a> {
    /// Line counts of the whole file.
    Summary(Summary),
    /// Every line that is neither blank nor a comment alone.
    Lines(Vec<&'a HostLine>),
}

/// Lists the file: its counts when `summary`, else its non-comment lines.
pub fn show<'a>(file: &'a ManagedHostsFile, summary: bool) -> (r: Listing<'a>)
    ensures
        summary ==> (r matches Listing::Summary(s) && s == file.summary_spec()),
        !summary ==> (r matches Listing::Lines(v) && ref_views(v@) == shown(file.lines_view())),
{
    if summary {
        Listing::Summary(file.summary())
    } else {
        Listing::Lines(file.without_comments())
    }
}

/// The lines with a host name equal to `host` (when `exact`) or containing
/// it, in file order.
pub fn check<'a>(file: &'a ManagedHostsFile, host: &str, exact: bool) -> (r: Vec<&'a HostLine>)
    ensures
        ref_views(r@) == select(file.lines_view(), host@, exact),
{
    file.get_matches(host, exact)
}

/// Adds the line `ip name.. # comment` for the comma-separated `names`, with
/// a default comment when `comment` is empty. When lines already name one of
/// them, this is refused unless `update`, in which case those names are first
/// removed. Returns the lines that named them, as written.
pub fn add(file: &mut ManagedHostsFile, ip: &str, names: &str, comment: &str, update: bool) -> (r:
    Result<Vec<String>, CommandError>)
    ensures
        final(file).path == old(file).path,
        final(file).closed == old(file).closed,
        result_view(r) == add_spec(old(file).lines_view(), ip@, names@, comment@, update).0,
        final(file).lines_view() == add_spec(
            old(file).lines_view(),
            ip@,
            names@,
            comment@,
            update,
        ).1,
{
    let all_names = split_text(names, ',');
    let ghost ns = split_on(names@, ',');
    let matches = file.get_multi_match(&all_names);
    let mut found: Vec<String> = Vec::new();
    let mut k: usize = 0;
    while k < matches.len()
        invariant
            k <= matches@.len(),
            strs(found@) == ref_views(matches@).map_values(|l: LineView| render(l)).subrange(
                0,
                k as int,
            ),
        decreases matches@.len() - k,
    {
        let ghost before = found@;
        found.push(matches[k].to_text());
        assert(strs(found@) =~= strs(before).push(render(matches@[k as int]@)));
        assert(ref_views(matches@).map_values(|l: LineView| render(l)).subrange(0, k + 1)
            =~= ref_views(matches@).map_values(|l: LineView| render(l)).subrange(0, k as int).push(
            render(matches@[k as int]@),
        ));
        k = k + 1;
    }
    assert(ref_views(matches@).map_values(|l: LineView| render(l)).subrange(0, k as int)
        =~= ref_views(matches@).map_values(|l: LineView| render(l)));
    assert(strs(found@).len() == found@.len());
    assert(strs(found@) == multi_select(old(file).lines_view(), ns).map_values(
        |l: LineView| render(l),
    ));
    if found.len() > 0 && !update {
        return Err(CommandError::Conflict(found));
    }
    assert(strs(found@).len() == found@.len());
    proof {
        assert(ns == strs(all_names@));
    }
    let mut line = ip.to_string();
    proof {
        reveal_strlit(" ");
        reveal_strlit(" # ");
    }
    assert(line@ == ip@);
    assert(" "@ =~= seq![' ']);
    assert(" # "@ =~= seq![' ', '#', ' ']);
    line.append(" ");
    let joined = join_text(&all_names, " ");
    line.append(joined.as_str());
    line.append(" # ");
    assert(line@ =~= ip@ + seq![' '] + join_with(ns, seq![' ']) + seq![' ', '#', ' ']);
    if comment.unicode_len() == 0 {
        line.append(DEFAULT_COMMENT);
    } else {
        line.append(comment);
    }
    assert(line@ =~= candidate(ip@, ns, comment@));
    match HostLine::parse(line.as_str()) {
        Ok(parsed) => {
            if parsed.kind != LineKind::Entry {
                return Err(CommandError::ParseFailure(line));
            }
        },
        Err(_) => {
            return Err(CommandError::ParseFailure(line));
        },
    }
    if found.len() > 0 {
        let mut t: usize = 0;
        while t < all_names.len()
            invariant
                t <= all_names@.len(),
                strs(all_names@) == ns,
                file.path == old(file).path,
                file.closed == old(file).closed,
                file.lines_view() == remove_all(old(file).lines_view(), ns.subrange(0, t as int)),
            decreases all_names@.len() - t,
        {
            file.remove_host(all_names[t].as_str());
            assert(ns.subrange(0, t + 1).drop_last() =~= ns.subrange(0, t as int));
            t = t + 1;
        }
        assert(ns.subrange(0, t as int) =~= ns);
    }
    let appended = file.add_line(line.as_str());
    assert(appended is Ok);
    Ok(found)
}

/// `add` with the loopback address.
pub fn add_local(file: &mut ManagedHostsFile, names: &str, comment: &str, update: bool) -> (r:
    Result<Vec<String>, CommandError>)
    ensures
        final(file).path == old(file).path,
        final(file).closed == old(file).closed,
        result_view(r) == add_spec(old(file).lines_view(), LOCAL_IP@, names@, comment@, update).0,
        final(file).lines_view() == add_spec(
            old(file).lines_view(),
            LOCAL_IP@,
            names@,
            comment@,
            update,
        ).1,
{
    crate::commands::add(file, LOCAL_IP, names, comment, update)
}

/// Removes `host` from every line that names it, when an enabled entry does.
pub fn remove(file: &mut ManagedHostsFile, host: &str) -> (r: Result<(), CommandError>)
    ensures
        final(file).path == old(file).path,
        final(file).closed == old(file).closed,
        has_kind_host(old(file).lines_view(), host@, LineKind::Entry) ==> r is Ok
            && final(file).lines_view() == remove_spec(old(file).lines_view(), host@),
        !has_kind_host(old(file).lines_view(), host@, LineKind::Entry) ==> r is Err && r->Err_0 is NotFound && final(file).lines_view() == old(file).lines_view(),
{
    if !file.has_host(host) {
        return Err(CommandError::NotFound);
    }
    file.remove_host(host);
    Ok(())
}

/// Disables the enabled entries that name `host`.
pub fn disable(file: &mut ManagedHostsFile, host: &str) -> (r: Result<(), CommandError>)
    ensures
        final(file).path == old(file).path,
        final(file).closed == old(file).closed,
        ({
            let ls = old(file).lines_view();
            let on = has_kind_host(ls, host@, LineKind::Entry);
            let off = has_kind_host(ls, host@, LineKind::Disabled);
            &&& on ==> r is Ok && final(file).lines_view() == crate::hostsfile::disable_spec(
                ls,
                host@,
            )
            &&& !on ==> final(file).lines_view() == ls
            &&& !on && off ==> (r is Err && r->Err_0 is AlreadyDisabled)
            &&& !on && !off ==> (r is Err && r->Err_0 is NotFound)
        }),
{
    if !file.has_host(host) {
        if file.has_disabled_host(host) {
            return Err(CommandError::AlreadyDisabled);
        }
        return Err(CommandError::NotFound);
    }
    file.disable_host(host);
    Ok(())
}

/// Enables the disabled entries that name `host`.
pub fn enable(file: &mut ManagedHostsFile, host: &str) -> (r: Result<(), CommandError>)
    ensures
        final(file).path == old(file).path,
        final(file).closed == old(file).closed,
        ({
            let ls = old(file).lines_view();
            let on = has_kind_host(ls, host@, LineKind::Entry);
            let off = has_kind_host(ls, host@, LineKind::Disabled);
            &&& off ==> r is Ok && final(file).lines_view() == crate::hostsfile::enable_spec(
                ls,
                host@,
            )
            &&& !off ==> final(file).lines_view() == ls
            &&& !off && on ==> (r is Err && r->Err_0 is AlreadyEnabled)
            &&& !off && !on ==> (r is Err && r->Err_0 is NotFound)
        }),
{
    if !file.has_disabled_host(host) {
        if file.has_host(host) {
            return Err(CommandError::AlreadyEnabled);
        }
        return Err(CommandError::NotFound);
    }
    file.enable_host(host);
    Ok(())
}

} // verus!
