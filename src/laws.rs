//! Properties that relate several operations of the file model.
use vstd::prelude::*;
use crate::hostsfile::{
    disable_one, disable_spec, enable_one, enable_spec, ends_with_break, has_kind_host, line_texts,
    load_spec, serialize_spec,
};
use crate::line::{LineKind, LineView, load_line_spec, render};
use crate::text::{join_with, lemma_join_split, split_on};

verus! {

/// Two lines hold the same text, kind, address, names and comment.
pub open spec fn same_content(a: LineView, b: LineView) -> bool {
    a.raw == b.raw && a.kind == b.kind && a.ip == b.ip && a.hosts == b.hosts && a.comment
        == b.comment
}

/// Loading a text and writing it back, with no line changed in between,
/// gives the text back exactly.
pub proof fn lemma_round_trip(text: Seq<char>)
    ensures
        serialize_spec(load_spec(text), ends_with_break(text)) == text,
{
    let pieces = line_texts(text);
    assert(load_spec(text).map_values(|l: LineView| render(l)) =~= pieces) by {
        assert forall|i: int| 0 <= i < pieces.len() implies #[trigger] render(
            load_line_spec(pieces[i]),
        ) == pieces[i] by {}
    }
    lemma_join_split(text, '\n');
    let all = split_on(text, '\n');
    if ends_with_break(text) {
        assert(join_with(all, seq!['\n']) == join_with(all.drop_last(), seq!['\n']) + seq!['\n']
            + all.last());
        assert(join_with(all, seq!['\n']) =~= join_with(pieces, seq!['\n']) + seq!['\n']);
    } else {
        assert(join_with(pieces, seq!['\n']) + seq![] =~= join_with(pieces, seq!['\n']));
    }
}

/// Disabling a host and then enabling it restores every line's kind,
/// address, names and comment, provided no disabled entry named the host.
pub proof fn lemma_disable_then_enable(ls: Seq<LineView>, host: Seq<char>)
    requires
        !has_kind_host(ls, host, LineKind::Disabled),
    ensures
        enable_spec(disable_spec(ls, host), host).len() == ls.len(),
        forall|i: int|
            0 <= i < ls.len() ==> same_content(
                #[trigger] enable_spec(disable_spec(ls, host), host)[i],
                ls[i],
            ),
{
    assert forall|i: int| 0 <= i < ls.len() implies same_content(
        #[trigger] enable_spec(disable_spec(ls, host), host)[i],
        ls[i],
    ) by {
        assert(disable_spec(ls, host)[i] == disable_one(ls[i], host));
        assert(!(ls[i].kind == LineKind::Disabled && crate::line::line_hit(ls[i], host, true)));
    }
}

/// Enabling a host and then disabling it restores every line's kind,
/// address, names and comment, provided no enabled entry named the host.
pub proof fn lemma_enable_then_disable(ls: Seq<LineView>, host: Seq<char>)
    requires
        !has_kind_host(ls, host, LineKind::Entry),
    ensures
        disable_spec(enable_spec(ls, host), host).len() == ls.len(),
        forall|i: int|
            0 <= i < ls.len() ==> same_content(
                #[trigger] disable_spec(enable_spec(ls, host), host)[i],
                ls[i],
            ),
{
    assert forall|i: int| 0 <= i < ls.len() implies same_content(
        #[trigger] disable_spec(enable_spec(ls, host), host)[i],
        ls[i],
    ) by {
        assert(enable_spec(ls, host)[i] == enable_one(ls[i], host));
        assert(!(ls[i].kind == LineKind::Entry && crate::line::line_hit(ls[i], host, true)));
    }
}

} // verus!
