//! The file model: the ordered lines of a hosts file, with lookup and
//! in-place mutations.
use vstd::prelude::*;
use crate::line::{
    HostLine, LineKind, LineView, ParseError, line_hit, load_line_spec, parse_spec, render,
    same_text,
};
use crate::text::{join_with, split_on, strs};

verus! {

pub open spec fn views(ls: Seq<HostLine>) -> Seq<LineView> {
    ls.map_values(|l: HostLine| l@)
}

pub open spec fn ref_views(ls: Seq<&HostLine>) -> Seq<LineView> {
    ls.map_values(|l: &HostLine| l@)
}

/// Whether a text ends with a line break that closes its last line.
pub open spec fn ends_with_break(text: Seq<char>) -> bool {
    split_on(text, '\n').len() > 1 && split_on(text, '\n').last().len() == 0
}

/// The lines of a text: the pieces between line breaks, without the empty
/// piece after a closing line break.
pub open spec fn line_texts(text: Seq<char>) -> Seq<Seq<char>> {
    if ends_with_break(text) {
        split_on(text, '\n').drop_last()
    } else {
        split_on(text, '\n')
    }
}

/// The lines read from the text of a whole file.
pub open spec fn load_spec(text: Seq<char>) -> Seq<LineView> {
    line_texts(text).map_values(|s: Seq<char>| load_line_spec(s))
}

/// The text of a whole file written from its lines, with a closing line
/// break when `closed`.
pub open spec fn serialize_spec(ls: Seq<LineView>, closed: bool) -> Seq<char> {
    join_with(ls.map_values(|l: LineView| render(l)), seq!['\n']) + if closed {
        seq!['\n']
    } else {
        seq![]
    }
}

/// The lines with a host name that matches `target`, in file order.
pub open spec fn select(ls: Seq<LineView>, target: Seq<char>, exact: bool) -> Seq<LineView>
    decreases ls.len(),
{
    if ls.len() == 0 {
        seq![]
    } else {
        let p = select(ls.drop_last(), target, exact);
        if line_hit(ls.last(), target, exact) {
            p.push(ls.last())
        } else {
            p
        }
    }
}

/// For each target in turn, the lines that name it exactly.
pub open spec fn multi_select(ls: Seq<LineView>, targets: Seq<Seq<char>>) -> Seq<LineView>
    decreases targets.len(),
{
    if targets.len() == 0 {
        seq![]
    } else {
        multi_select(ls, targets.drop_last()) + select(ls, targets.last(), true)
    }
}

/// The lines that are neither blank nor a comment alone, in file order.
pub open spec fn shown(ls: Seq<LineView>) -> Seq<LineView>
    decreases ls.len(),
{
    if ls.len() == 0 {
        seq![]
    } else {
        let p = shown(ls.drop_last());
        let k = ls.last().kind;
        if k != LineKind::Blank && k != LineKind::Comment {
            p.push(ls.last())
        } else {
            p
        }
    }
}

/// The number of lines of a kind.
pub open spec fn count_kind(ls: Seq<LineView>, k: LineKind) -> nat
    decreases ls.len(),
{
    if ls.len() == 0 {
        0
    } else {
        count_kind(ls.drop_last(), k) + if ls.last().kind == k {
            1nat
        } else {
            0nat
        }
    }
}

/// Some line of kind `k` names `host` exactly.
pub open spec fn has_kind_host(ls: Seq<LineView>, host: Seq<char>, k: LineKind) -> bool {
    exists|i: int| 0 <= i < ls.len() && ls[i].kind == k && line_hit(#[trigger] ls[i], host, true)
}

/// An enabled entry that names `host` becomes disabled; other lines stay.
pub open spec fn disable_one(l: LineView, host: Seq<char>) -> LineView {
    if l.kind == LineKind::Entry && line_hit(l, host, true) {
        LineView { kind: LineKind::Disabled, edited: true, ..l }
    } else {
        l
    }
}

/// A disabled entry that names `host` becomes enabled; other lines stay.
pub open spec fn enable_one(l: LineView, host: Seq<char>) -> LineView {
    if l.kind == LineKind::Disabled && line_hit(l, host, true) {
        LineView { kind: LineKind::Entry, edited: true, ..l }
    } else {
        l
    }
}

pub open spec fn disable_spec(ls: Seq<LineView>, host: Seq<char>) -> Seq<LineView> {
    ls.map_values(|l: LineView| disable_one(l, host))
}

pub open spec fn enable_spec(ls: Seq<LineView>, host: Seq<char>) -> Seq<LineView> {
    ls.map_values(|l: LineView| enable_one(l, host))
}

/// The names of `hs` other than `host`, in order.
pub open spec fn without(hs: Seq<Seq<char>>, host: Seq<char>) -> Seq<Seq<char>>
    decreases hs.len(),
{
    if hs.len() == 0 {
        seq![]
    } else {
        let p = without(hs.drop_last(), host);
        if hs.last() == host {
            p
        } else {
            p.push(hs.last())
        }
    }
}

/// `host` taken out of every line that names it; a line left with no name goes.
pub open spec fn remove_spec(ls: Seq<LineView>, host: Seq<char>) -> Seq<LineView>
    decreases ls.len(),
{
    if ls.len() == 0 {
        seq![]
    } else {
        let p = remove_spec(ls.drop_last(), host);
        let l = ls.last();
        if !line_hit(l, host, true) {
            p.push(l)
        } else if without(l.hosts, host).len() == 0 {
            p
        } else {
            p.push(LineView { hosts: without(l.hosts, host), edited: true, ..l })
        }
    }
}

/// Line counts of a file.
#[derive(Clone, Copy, Debug, PartialEq, Eq, Structural)]
pub struct Summary {
    pub lines: usize,
    pub enabled: usize,
    pub disabled: usize,
}

/// A hosts file held in memory as its ordered lines.
#[derive(Debug)]
pub struct ManagedHostsFile {
    /// Where the file was read from.
    pub path: String,
    pub lines: Vec<HostLine>,
    /// Whether the text ends with a line break after its last line.
    pub closed: bool,
}

/// Reads a line of a file: as parsed, or kept as opaque text.
fn load_line(s: &str) -> (r: HostLine)
    ensures
        r@ == load_line_spec(s@),
{
    match HostLine::parse(s) {
        Ok(l) => l,
        Err(_) => {
            let l = HostLine {
                raw: s.to_string(),
                kind: LineKind::Opaque,
                ip: None,
                hosts: Vec::new(),
                comment: None,
                edited: false,
            };
            assert(l@.hosts =~= seq![]);
            l
        },
    }
}

/// The names of `hs` other than `host`, in order.
fn without_host(hs: &Vec<String>, host: &str) -> (r: Vec<String>)
    ensures
        strs(r@) == without(strs(hs@), host@),
{
    let mut r: Vec<String> = Vec::new();
    let mut j: usize = 0;
    while j < hs.len()
        invariant
            j <= hs@.len(),
            strs(r@) == without(strs(hs@).subrange(0, j as int), host@),
        decreases hs@.len() - j,
    {
        assert(strs(hs@).subrange(0, j + 1).drop_last() =~= strs(hs@).subrange(0, j as int));
        if !same_text(hs[j].as_str(), host) {
            r.push(hs[j].clone());
            assert(strs(r@) =~= without(strs(hs@).subrange(0, j as int), host@).push(hs@[j as int]@));
        }
        j = j + 1;
    }
    assert(strs(hs@).subrange(0, j as int) =~= strs(hs@));
    r
}

impl ManagedHostsFile {
    pub open spec fn lines_view(&self) -> Seq<LineView> {
        views(self.lines@)
    }

    /// Reads the whole text of a file, line by line; a line that cannot be
    /// read as blank, comment or entry is kept as opaque text.
    pub fn from_text(path: String, text: &str) -> (r: ManagedHostsFile)
        ensures
            r.path == path,
            r.lines_view() == load_spec(text@),
            r.closed == ends_with_break(text@),
    {
        let n = text.unicode_len();
        let mut lines: Vec<HostLine> = Vec::new();
        let ghost mut pieces: Seq<Seq<char>> = seq![];
        let mut start: usize = 0;
        let mut i: usize = 0;
        assert(text@.subrange(0, 0) =~= seq![]);
        while i < n
            invariant
                n == text@.len(),
                start <= i <= n,
                split_on(text@.subrange(0, i as int), '\n') == pieces.push(
                    text@.subrange(start as int, i as int),
                ),
                views(lines@) == pieces.map_values(|s: Seq<char>| load_line_spec(s)),
            decreases n - i,
        {
            let ghost cur = text@.subrange(start as int, i as int);
            assert(text@.subrange(0, i + 1).drop_last() =~= text@.subrange(0, i as int));
            if text.get_char(i) == '\n' {
                let l = load_line(text.substring_char(start, i));
                let ghost old_lines = lines@;
                let ghost old_pieces = pieces;
                lines.push(l);
                proof {
                    pieces = pieces.push(cur);
                }
                assert(views(lines@) =~= views(old_lines).push(l@));
                assert(pieces.map_values(|s: Seq<char>| load_line_spec(s)) =~= old_pieces.map_values(
                    |s: Seq<char>| load_line_spec(s),
                ).push(load_line_spec(cur)));
                start = i + 1;
                assert(text@.subrange(start as int, i + 1) =~= seq![]);
            } else {
                assert(text@.subrange(start as int, i + 1) =~= cur.push(text@[i as int]));
                assert(pieces.push(cur).update(pieces.len() as int, cur.push(text@[i as int]))
                    =~= pieces.push(text@.subrange(start as int, i + 1)));
            }
            i = i + 1;
        }
        assert(text@.subrange(0, n as int) =~= text@);
        let ghost last = text@.subrange(start as int, n as int);
        assert(pieces.push(last).drop_last() =~= pieces);
        assert(pieces.push(last).len() == pieces.len() + 1);
        assert(views(lines@).len() == lines@.len());
        if start == n && lines.len() > 0 {
            assert(last.len() == 0);
            return ManagedHostsFile { path, lines, closed: true };
        }
        let l = load_line(text.substring_char(start, n));
        let ghost old_lines = lines@;
        lines.push(l);
        assert(views(lines@) =~= views(old_lines).push(l@));
        assert(pieces.push(last).map_values(|s: Seq<char>| load_line_spec(s)) =~= pieces.map_values(
            |s: Seq<char>| load_line_spec(s),
        ).push(load_line_spec(last)));
        ManagedHostsFile { path, lines, closed: false }
    }

    /// The text of the whole file: each line as `HostLine::to_text` writes
    /// it, joined by line breaks, with a closing one when the file had it.
    pub fn serialize(&self) -> (r: String)
        ensures
            r@ == serialize_spec(self.lines_view(), self.closed),
    {
        let ghost rs = self.lines_view().map_values(|l: LineView| render(l));
        let mut r = String::new();
        let mut i: usize = 0;
        while i < self.lines.len()
            invariant
                i <= self.lines@.len(),
                rs == self.lines_view().map_values(|l: LineView| render(l)),
                r@ == join_with(rs.subrange(0, i as int), seq!['\n']),
            decreases self.lines@.len() - i,
        {
            let t = self.lines[i].to_text();
            assert(rs.subrange(0, i + 1).drop_last() =~= rs.subrange(0, i as int));
            if i > 0 {
                proof {
                    reveal_strlit("\n");
                }
                r.append("\n");
            }
            r.append(t.as_str());
            i = i + 1;
        }
        assert(rs.subrange(0, i as int) =~= rs);
        if self.closed {
            proof {
                reveal_strlit("\n");
            }
            r.append("\n");
        }
        r
    }

    /// Counts of all lines, enabled entries and disabled entries.
    pub open spec fn summary_spec(&self) -> Summary {
        Summary {
            lines: self.lines_view().len() as usize,
            enabled: count_kind(self.lines_view(), LineKind::Entry) as usize,
            disabled: count_kind(self.lines_view(), LineKind::Disabled) as usize,
        }
    }

    /// Counts of all lines, enabled entries and disabled entries.
    pub fn summary(&self) -> (r: Summary)
        ensures
            r.lines == self.lines_view().len(),
            r.enabled == count_kind(self.lines_view(), LineKind::Entry),
            r.disabled == count_kind(self.lines_view(), LineKind::Disabled),
            r == self.summary_spec(),
    {
        let mut enabled: usize = 0;
        let mut disabled: usize = 0;
        let mut i: usize = 0;
        while i < self.lines.len()
            invariant
                i <= self.lines@.len(),
                enabled == count_kind(self.lines_view().subrange(0, i as int), LineKind::Entry),
                disabled == count_kind(self.lines_view().subrange(0, i as int), LineKind::Disabled),
                enabled + disabled <= i,
            decreases self.lines@.len() - i,
        {
            assert(self.lines_view().subrange(0, i + 1).drop_last() =~= self.lines_view().subrange(
                0,
                i as int,
            ));
            if self.lines[i].kind == LineKind::Entry {
                enabled = enabled + 1;
            } else if self.lines[i].kind == LineKind::Disabled {
                disabled = disabled + 1;
            }
            i = i + 1;
        }
        assert(self.lines_view().subrange(0, i as int) =~= self.lines_view());
        Summary { lines: self.lines.len(), enabled, disabled }
    }

    /// The lines that are neither blank nor a comment alone, in file order.
    pub fn without_comments(&self) -> (r: Vec<&HostLine>)
        ensures
            ref_views(r@) == shown(self.lines_view()),
    {
        let mut r: Vec<&HostLine> = Vec::new();
        let mut i: usize = 0;
        while i < self.lines.len()
            invariant
                i <= self.lines@.len(),
                ref_views(r@) == shown(self.lines_view().subrange(0, i as int)),
            decreases self.lines@.len() - i,
        {
            let ghost before = r@;
            assert(self.lines_view().subrange(0, i + 1).drop_last() =~= self.lines_view().subrange(
                0,
                i as int,
            ));
            let l = &self.lines[i];
            if l.kind != LineKind::Blank && l.kind != LineKind::Comment {
                r.push(l);
                assert(ref_views(r@) =~= ref_views(before).push(l@));
            }
            i = i + 1;
        }
        assert(self.lines_view().subrange(0, i as int) =~= self.lines_view());
        r
    }

    /// The lines with a host name equal to `target` (when `exact`) or
    /// containing it (otherwise), in file order.
    pub fn get_matches(&self, target: &str, exact: bool) -> (r: Vec<&HostLine>)
        ensures
            ref_views(r@) == select(self.lines_view(), target@, exact),
    {
        let mut r: Vec<&HostLine> = Vec::new();
        let mut i: usize = 0;
        while i < self.lines.len()
            invariant
                i <= self.lines@.len(),
                ref_views(r@) == select(self.lines_view().subrange(0, i as int), target@, exact),
            decreases self.lines@.len() - i,
        {
            let ghost before = r@;
            assert(self.lines_view().subrange(0, i + 1).drop_last() =~= self.lines_view().subrange(
                0,
                i as int,
            ));
            let l = &self.lines[i];
            if l.matches(target, exact) {
                r.push(l);
                assert(ref_views(r@) =~= ref_views(before).push(l@));
            }
            i = i + 1;
        }
        assert(self.lines_view().subrange(0, i as int) =~= self.lines_view());
        r
    }

    /// For each target in turn, the lines that name it exactly; a line that
    /// names two targets comes once for each.
    pub fn get_multi_match(&self, targets: &Vec<String>) -> (r: Vec<&HostLine>)
        ensures
            ref_views(r@) == multi_select(self.lines_view(), strs(targets@)),
    {
        let mut r: Vec<&HostLine> = Vec::new();
        let mut t: usize = 0;
        while t < targets.len()
            invariant
                t <= targets@.len(),
                ref_views(r@) == multi_select(
                    self.lines_view(),
                    strs(targets@).subrange(0, t as int),
                ),
            decreases targets@.len() - t,
        {
            let found = self.get_matches(targets[t].as_str(), true);
            let ghost before = r@;
            let mut k: usize = 0;
            while k < found.len()
                invariant
                    k <= found@.len(),
                    ref_views(r@) == ref_views(before) + ref_views(found@).subrange(0, k as int),
                decreases found@.len() - k,
            {
                let ghost mid = r@;
                r.push(found[k]);
                assert(ref_views(r@) =~= ref_views(mid).push(found@[k as int]@));
                assert(ref_views(found@).subrange(0, k + 1) =~= ref_views(found@).subrange(
                    0,
                    k as int,
                ).push(found@[k as int]@));
                k = k + 1;
            }
            assert(ref_views(found@).subrange(0, k as int) =~= ref_views(found@));
            assert(strs(targets@).subrange(0, t + 1).drop_last() =~= strs(targets@).subrange(
                0,
                t as int,
            ));
            t = t + 1;
        }
        assert(strs(targets@).subrange(0, t as int) =~= strs(targets@));
        r
    }

    /// Whether an enabled entry names `host` exactly.
    pub fn has_host(&self, host: &str) -> (r: bool)
        ensures
            r == has_kind_host(self.lines_view(), host@, LineKind::Entry),
    {
        self.has_kind(host, LineKind::Entry)
    }

    /// Whether a disabled entry names `host` exactly.
    pub fn has_disabled_host(&self, host: &str) -> (r: bool)
        ensures
            r == has_kind_host(self.lines_view(), host@, LineKind::Disabled),
    {
        self.has_kind(host, LineKind::Disabled)
    }

    fn has_kind(&self, host: &str, k: LineKind) -> (r: bool)
        ensures
            r == has_kind_host(self.lines_view(), host@, k),
    {
        let mut i: usize = 0;
        while i < self.lines.len()
            invariant
                i <= self.lines@.len(),
                forall|m: int|
                    0 <= m < i ==> !(self.lines_view()[m].kind == k && line_hit(
                        #[trigger] self.lines_view()[m],
                        host@,
                        true,
                    )),
            decreases self.lines@.len() - i,
        {
            if self.lines[i].kind == k && self.lines[i].matches(host, true) {
                assert(self.lines_view()[i as int] == self.lines@[i as int]@);
                return true;
            }
            i = i + 1;
        }
        false
    }

    /// Appends the line read from `text`, unchanged, at the end.
    pub fn add_line(&mut self, text: &str) -> (r: Result<(), ParseError>)
        ensures
            final(self).path == old(self).path,
            final(self).closed == old(self).closed,
            r is Ok <==> parse_spec(text@) is Ok,
            r is Ok ==> final(self).lines_view() == old(self).lines_view().push(
                parse_spec(text@)->Ok_0,
            ),
            r is Err ==> final(self).lines_view() == old(self).lines_view(),
    {
        match HostLine::parse(text) {
            Ok(l) => {
                let ghost before = self.lines@;
                self.lines.push(l);
                assert(views(self.lines@) =~= views(before).push(l@));
                Ok(())
            },
            Err(e) => Err(e),
        }
    }

    /// Disables every enabled entry that names `host` exactly.
    pub fn disable_host(&mut self, host: &str)
        ensures
            final(self).path == old(self).path,
            final(self).closed == old(self).closed,
            final(self).lines_view() == disable_spec(old(self).lines_view(), host@),
    {
        self.toggle(host, true);
    }

    /// Enables every disabled entry that names `host` exactly.
    pub fn enable_host(&mut self, host: &str)
        ensures
            final(self).path == old(self).path,
            final(self).closed == old(self).closed,
            final(self).lines_view() == enable_spec(old(self).lines_view(), host@),
    {
        self.toggle(host, false);
    }

    fn toggle(&mut self, host: &str, disable: bool)
        ensures
            final(self).path == old(self).path,
            final(self).closed == old(self).closed,
            final(self).lines_view() == if disable {
                disable_spec(old(self).lines_view(), host@)
            } else {
                enable_spec(old(self).lines_view(), host@)
            },
    {
        let (from, to) = if disable {
            (LineKind::Entry, LineKind::Disabled)
        } else {
            (LineKind::Disabled, LineKind::Entry)
        };
        let mut rest: Vec<HostLine> = Vec::new();
        std::mem::swap(&mut self.lines, &mut rest);
        let ghost orig = views(rest@);
        let ghost want = if disable {
            disable_spec(orig, host@)
        } else {
            enable_spec(orig, host@)
        };
        let mut out: Vec<HostLine> = Vec::new();
        while rest.len() > 0
            invariant
                orig.len() == out@.len() + rest@.len(),
                views(rest@) == orig.subrange(out@.len() as int, orig.len() as int),
                views(out@) == want.subrange(0, out@.len() as int),
                want.len() == orig.len(),
                forall|m: int|
                    0 <= m < orig.len() ==> #[trigger] want[m] == if disable {
                        disable_one(orig[m], host@)
                    } else {
                        enable_one(orig[m], host@)
                    },
                from == (if disable {
                    LineKind::Entry
                } else {
                    LineKind::Disabled
                }),
                to == (if disable {
                    LineKind::Disabled
                } else {
                    LineKind::Entry
                }),
            decreases rest@.len(),
        {
            let ghost k = out@.len() as int;
            let ghost before_rest = rest@;
            let ghost before_out = out@;
            assert(views(before_rest)[0] == before_rest[0]@);
            let mut l = rest.remove(0);
            assert(orig[k] == l@);
            if l.kind == from && l.matches(host, true) {
                l.kind = to;
                l.edited = true;
            }
            out.push(l);
            assert(views(rest@) =~= views(before_rest).drop_first());
            assert(views(out@) =~= views(before_out).push(l@));
            assert(want.subrange(0, k + 1) =~= want.subrange(0, k).push(want[k]));
        }
        assert(want.subrange(0, out@.len() as int) =~= want);
        self.lines = out;
    }

    /// Takes `host` out of every line that names it exactly; a line left
    /// with no host name is deleted, the others keep their order.
    pub fn remove_host(&mut self, host: &str)
        ensures
            final(self).path == old(self).path,
            final(self).closed == old(self).closed,
            final(self).lines_view() == remove_spec(old(self).lines_view(), host@),
    {
        let mut rest: Vec<HostLine> = Vec::new();
        std::mem::swap(&mut self.lines, &mut rest);
        let ghost orig = views(rest@);
        let total = rest.len();
        let mut out: Vec<HostLine> = Vec::new();
        let mut k: usize = 0;
        while rest.len() > 0
            invariant
                total == orig.len(),
                k + rest@.len() == orig.len(),
                views(rest@) == orig.subrange(k as int, orig.len() as int),
                views(out@) == remove_spec(orig.subrange(0, k as int), host@),
            decreases rest@.len(),
        {
            let ghost before_rest = rest@;
            let ghost before_out = out@;
            assert(views(before_rest)[0] == before_rest[0]@);
            let mut l = rest.remove(0);
            assert(orig[k as int] == l@);
            assert(views(rest@) =~= views(before_rest).drop_first());
            assert(orig.subrange(0, k + 1).drop_last() =~= orig.subrange(0, k as int));
            if l.matches(host, true) {
                let hs = without_host(&l.hosts, host);
                if hs.len() > 0 {
                    l.hosts = hs;
                    l.edited = true;
                    out.push(l);
                    assert(views(out@) =~= views(before_out).push(l@));
                }
            } else {
                out.push(l);
                assert(views(out@) =~= views(before_out).push(l@));
            }
            k = k + 1;
        }
        assert(orig.subrange(0, k as int) =~= orig);
        self.lines = out;
    }
}

} // verus!
