//! The line model: one physical line of a hosts file.
use vstd::prelude::*;
use crate::text::{find, find_char, lemma_find_bound, strs, trim, trim_text, words};

verus! {

/// What a line of the file holds.
#[derive(Clone, Copy, Debug, PartialEq, Eq, Structural)]
pub enum LineKind {
    /// Empty, or whitespace alone.
    Blank,
    /// A comment and nothing else.
    Comment,
    /// An address with one or more host names, and maybe a trailing comment.
    Entry,
    /// An entry that is commented out as a whole.
    Disabled,
    /// Text that is neither of the above, kept as it was.
    Opaque,
}

/// A line that is neither blank, a comment nor an entry with a host name.
#[derive(Clone, Copy, Debug, PartialEq, Eq, Structural)]
pub struct ParseError;

/// One line of a hosts file, with the text it was read from.
#[derive(Debug)]
pub struct HostLine {
    /// The text the line was read from.
    pub raw: String,
    pub kind: LineKind,
    /// The address, for entries and disabled entries.
    pub ip: Option<String>,
    /// The host names, in order, for entries and disabled entries.
    pub hosts: Vec<String>,
    /// The trimmed text after the comment marker, if any.
    pub comment: Option<String>,
    /// Set once the line has been changed: it is then written from its fields.
    pub edited: bool,
}

pub struct LineView {
    pub raw: Seq<char>,
    pub kind: LineKind,
    pub ip: Option<Seq<char>>,
    pub hosts: Seq<Seq<char>>,
    pub comment: Option<Seq<char>>,
    pub edited: bool,
}

pub open spec fn opt_view(o: Option<String>) -> Option<Seq<char>> {
    match o {
        Some(s) => Some(s@),
        None => None,
    }
}

impl View for HostLine {
    type V = LineView;

    open spec fn view(&self) -> LineView {
        LineView {
            raw: self.raw@,
            kind: self.kind,
            ip: opt_view(self.ip),
            hosts: strs(self.hosts@),
            comment: opt_view(self.comment),
            edited: self.edited,
        }
    }
}

/// The part of a line before its first comment marker.
pub open spec fn data_of(s: Seq<char>) -> Seq<char> {
    s.subrange(0, find(s, '#'))
}

/// The trimmed text after the first comment marker, if there is one.
pub open spec fn comment_of(s: Seq<char>) -> Option<Seq<char>> {
    if find(s, '#') < s.len() {
        Some(trim(s.subrange(find(s, '#') + 1, s.len() as int)))
    } else {
        None
    }
}

/// Whether `s`, read as an entry, has an address and at least one host name.
pub open spec fn is_entry_text(s: Seq<char>) -> bool {
    words(data_of(s)).len() >= 2
}

/// The line read from `raw` whose address, names and comment come from `body`.
pub open spec fn entry_view(raw: Seq<char>, body: Seq<char>, kind: LineKind) -> LineView {
    LineView {
        raw,
        kind,
        ip: Some(words(data_of(body))[0]),
        hosts: words(data_of(body)).drop_first(),
        comment: comment_of(body),
        edited: false,
    }
}

/// A line with no address and no host names.
pub open spec fn plain_view(raw: Seq<char>, kind: LineKind, comment: Option<Seq<char>>) -> LineView {
    LineView { raw, kind, ip: None, hosts: seq![], comment, edited: false }
}

/// How a line of text is read.
pub open spec fn parse_spec(s: Seq<char>) -> Result<LineView, ParseError> {
    if trim(s).len() == 0 {
        Ok(plain_view(s, LineKind::Blank, None))
    } else if words(data_of(s)).len() == 1 {
        Err(ParseError)
    } else if is_entry_text(s) {
        Ok(entry_view(s, s, LineKind::Entry))
    } else if s[0] == '#' && is_entry_text(s.drop_first()) {
        Ok(entry_view(s, s.drop_first(), LineKind::Disabled))
    } else {
        Ok(plain_view(s, LineKind::Comment, comment_of(s)))
    }
}

/// How a line of a loaded file is held: as parsed, or kept opaque.
pub open spec fn load_line_spec(s: Seq<char>) -> LineView {
    match parse_spec(s) {
        Ok(v) => v,
        Err(_) => plain_view(s, LineKind::Opaque, None),
    }
}

/// Each host name preceded by a space.
pub open spec fn spaced(hs: Seq<Seq<char>>) -> Seq<char>
    decreases hs.len(),
{
    if hs.len() == 0 {
        seq![]
    } else {
        spaced(hs.drop_last()) + seq![' '] + hs.last()
    }
}

/// A line written from its fields: `[#]ip host.. [# comment]`.
pub open spec fn formatted(l: LineView) -> Seq<char> {
    (if l.kind == LineKind::Disabled {
        seq!['#']
    } else {
        seq![]
    }) + (match l.ip {
        Some(ip) => ip,
        None => seq![],
    }) + spaced(l.hosts) + (match l.comment {
        Some(c) => seq![' ', '#', ' '] + c,
        None => seq![],
    })
}

/// The text a line is written as: the text it was read from unless it was changed.
pub open spec fn render(l: LineView) -> Seq<char> {
    if l.edited {
        formatted(l)
    } else {
        l.raw
    }
}

/// `t` occurs in `h` as a run of consecutive characters.
pub open spec fn contains_sub(h: Seq<char>, t: Seq<char>) -> bool {
    exists|i: int| 0 <= i && i + t.len() <= h.len() && #[trigger] h.subrange(i, i + t.len()) == t
}

/// Whether a host name matches a target: equal, or containing it.
pub open spec fn name_matches(name: Seq<char>, target: Seq<char>, exact: bool) -> bool {
    if exact {
        name == target
    } else {
        contains_sub(name, target)
    }
}

/// Whether one of the line's host names matches a target.
pub open spec fn line_hit(l: LineView, target: Seq<char>, exact: bool) -> bool {
    exists|j: int| 0 <= j < l.hosts.len() && name_matches(#[trigger] l.hosts[j], target, exact)
}

/// Whether `t` occurs in `h` at character `i`.
fn occurs_at(h: &str, t: &str, i: usize) -> (r: bool)
    requires
        i + t@.len() <= h@.len(),
    ensures
        r == (h@.subrange(i as int, i + t@.len()) == t@),
{
    let hn = h.unicode_len();
    let n = t.unicode_len();
    let mut k: usize = 0;
    while k < n
        invariant
            n == t@.len(),
            hn == h@.len(),
            i + n <= h@.len(),
            k <= n,
            forall|m: int| 0 <= m < k ==> h@[i + m] == t@[m],
        decreases n - k,
    {
        if h.get_char(i + k) != t.get_char(k) {
            assert(h@.subrange(i as int, i + n)[k as int] != t@[k as int]);
            return false;
        }
        k = k + 1;
    }
    assert(h@.subrange(i as int, i + n) =~= t@);
    true
}

/// Whether `t` occurs in `h` as a run of consecutive characters.
pub fn contains_text(h: &str, t: &str) -> (r: bool)
    ensures
        r == contains_sub(h@, t@),
{
    let hn = h.unicode_len();
    let tn = t.unicode_len();
    if tn > hn {
        return false;
    }
    let mut i: usize = 0;
    loop
        invariant
            hn == h@.len(),
            tn == t@.len(),
            tn <= hn,
            i <= hn - tn,
            forall|m: int| 0 <= m < i ==> #[trigger] h@.subrange(m, m + tn) != t@,
        decreases hn - tn - i,
    {
        if occurs_at(h, t, i) {
            return true;
        }
        if i == hn - tn {
            return false;
        }
        i = i + 1;
    }
}

/// Whether two texts are equal.
pub fn same_text(a: &str, b: &str) -> (r: bool)
    ensures
        r == (a@ == b@),
{
    if a.unicode_len() != b.unicode_len() {
        return false;
    }
    let r = occurs_at(a, b, 0);
    assert(a@.subrange(0, b@.len() as int) =~= a@);
    r
}

/// Relies on hosts_parser::HostsFileLine::from_string. On text without a comment
/// marker it trims the text, gives an empty line when nothing is left, and
/// otherwise splits it at whitespace: the first token is the address, the rest
/// are the host names, and it fails when there are none.
#[verifier::external_body]
fn tokenize_entry(data: &str) -> (r: Result<(Option<String>, Vec<String>), ParseError>)
    requires
        forall|j: int| 0 <= j < data@.len() ==> data@[j] != '#',
    ensures
        r is Err <==> words(data@).len() == 1,
        r matches Ok((ip, hs)) ==> (words(data@).len() == 0 && ip is None && hs@.len() == 0) || (
        words(data@).len() >= 2 && opt_view(ip) == Some(words(data@)[0]) && strs(hs@)
            == words(data@).drop_first()),
{
    match hosts_parser::HostsFileLine::from_string(data) {
        Ok(l) => Ok((l.ip(), l.hosts())),
        Err(_) => Err(ParseError),
    }
}

/// Splits `s` at its first comment marker: the data part read as address and
/// host names, and the trimmed comment.
fn split_entry(s: &str) -> (r: (Result<(Option<String>, Vec<String>), ParseError>, Option<String>))
    ensures
        opt_view(r.1) == comment_of(s@),
        r.0 is Err <==> words(data_of(s@)).len() == 1,
        r.0 matches Ok((ip, hs)) ==> (words(data_of(s@)).len() == 0 && ip is None) || (
        is_entry_text(s@) && opt_view(ip) == Some(words(data_of(s@))[0]) && strs(hs@)
            == words(data_of(s@)).drop_first()),
{
    proof {
        lemma_find_bound(s@, '#');
    }
    let n = s.unicode_len();
    let h = find_char(s, '#');
    let data = s.substring_char(0, h);
    let toks = tokenize_entry(data);
    let comment = if h < n {
        Some(trim_text(s.substring_char(h + 1, n)))
    } else {
        None
    };
    (toks, comment)
}

impl HostLine {
    /// Whether the line has host names.
    pub fn has_host(&self) -> (r: bool)
        ensures
            r == (self@.hosts.len() > 0),
    {
        self.hosts.len() > 0
    }

    /// Whether the line carries a comment beside an entry.
    pub fn has_comment(&self) -> (r: bool)
        ensures
            r == (self@.comment is Some && self@.kind != LineKind::Comment),
    {
        self.comment.is_some() && self.kind != LineKind::Comment
    }

    /// Whether one of the line's host names matches `target`: is equal to it
    /// when `exact`, contains it otherwise.
    pub fn matches(&self, target: &str, exact: bool) -> (r: bool)
        ensures
            r == line_hit(self@, target@, exact),
    {
        let mut j: usize = 0;
        while j < self.hosts.len()
            invariant
                j <= self.hosts@.len(),
                forall|m: int| 0 <= m < j ==> !name_matches(#[trigger] strs(self.hosts@)[m], target@, exact),
            decreases self.hosts@.len() - j,
        {
            let hit = if exact {
                same_text(self.hosts[j].as_str(), target)
            } else {
                contains_text(self.hosts[j].as_str(), target)
            };
            if hit {
                assert(name_matches(self@.hosts[j as int], target@, exact));
                assert(line_hit(self@, target@, exact));
                return true;
            }
            j = j + 1;
        }
        assert(self@.hosts.len() == self.hosts@.len());
        assert(!line_hit(self@, target@, exact));
        false
    }

    /// The text the line is written as: the text it was read from when unchanged,
    /// else `[#]ip host.. [# comment]` from its fields.
    pub fn to_text(&self) -> (r: String)
        ensures
            r@ == render(self@),
    {
        if !self.edited {
            return self.raw.clone();
        }
        let mut r = String::new();
        proof {
            reveal_strlit("#");
            reveal_strlit(" ");
            reveal_strlit(" # ");
        }
        if self.kind == LineKind::Disabled {
            r.append("#");
        }
        match &self.ip {
            Some(ip) => r.append(ip.as_str()),
            None => {},
        }
        let ghost head = r@;
        let mut j: usize = 0;
        while j < self.hosts.len()
            invariant
                j <= self.hosts@.len(),
                r@ == head + spaced(strs(self.hosts@).subrange(0, j as int)),
            decreases self.hosts@.len() - j,
        {
            proof {
                reveal_strlit(" ");
            }
            r.append(" ");
            r.append(self.hosts[j].as_str());
            assert(strs(self.hosts@).subrange(0, j + 1).drop_last() =~= strs(
                self.hosts@,
            ).subrange(0, j as int));
            j = j + 1;
        }
        assert(strs(self.hosts@).subrange(0, j as int) =~= strs(self.hosts@));
        match &self.comment {
            Some(c) => {
                r.append(" # ");
                r.append(c.as_str());
            },
            None => {},
        }
        r
    }

    /// Reads one line of text.
    pub fn parse(s: &str) -> (r: Result<HostLine, ParseError>)
        ensures
            r is Ok <==> parse_spec(s@) is Ok,
            r matches Ok(l) ==> l@ == parse_spec(s@)->Ok_0,
    {
        let t = trim_text(s);
        if t.as_str().unicode_len() == 0 {
            let l = HostLine {
                raw: s.to_string(),
                kind: LineKind::Blank,
                ip: None,
                hosts: Vec::new(),
                comment: None,
                edited: false,
            };
            assert(l@.hosts =~= seq![]);
            return Ok(l);
        }
        let (toks, comment) = split_entry(s);
        match toks {
            Err(e) => Err(e),
            Ok((Some(ip), hosts)) => Ok(HostLine {
                raw: s.to_string(),
                kind: LineKind::Entry,
                ip: Some(ip),
                hosts,
                comment,
                edited: false,
            }),
            Ok((None, _)) => {
                let n = s.unicode_len();
                if n > 0 && s.get_char(0) == '#' {
                    let rest = s.substring_char(1, n);
                    assert(rest@ =~= s@.drop_first());
                    let (toks2, comment2) = split_entry(rest);
                    if let Ok((Some(ip), hosts)) = toks2 {
                        return Ok(HostLine {
                            raw: s.to_string(),
                            kind: LineKind::Disabled,
                            ip: Some(ip),
                            hosts,
                            comment: comment2,
                            edited: false,
                        });
                    }
                }
                let l = HostLine {
                    raw: s.to_string(),
                    kind: LineKind::Comment,
                    ip: None,
                    hosts: Vec::new(),
                    comment,
                    edited: false,
                };
                assert(l@.hosts =~= seq![]);
                Ok(l)
            },
        }
    }
}

} // verus!
