//! Links in text that was pasted.
use crate::text::{
    ascii_lower, contains_text, has_part, has_prefix, is_unbroken, is_whitespace, same_text, split,
    split_text, splitting_undoes_joining, starts_with, text_contains_its_stretches, to_ascii_lower,
    trim, trim_class, trim_text, trimmed, trimming_keeps_trimmed_text, trimming_takes_the_edges,
    views, CharClass,
};
use vstd::prelude::*;

verus! {

/// Text with its upper-case ASCII letters turned into their lower-case forms.
pub open spec fn lowered(text: Seq<char>) -> Seq<char> {
    text.map_values(|c: char| ascii_lower(c))
}

/// Whether text names the service.
pub open spec fn names_service(text: Seq<char>) -> bool {
    contains_text(lowered(text), "mega.nz/"@) || contains_text(lowered(text), "mega.co.nz/"@)
}

/// Whether text starts like a web address.
pub open spec fn has_scheme(text: Seq<char>) -> bool {
    starts_with(lowered(text), "http://"@) || starts_with(lowered(text), "https://"@)
}

/// The link that a piece of text is, or nothing where it is none: without the punctuation around
/// it, and with a scheme.
pub open spec fn cleaned_link(value: Seq<char>) -> Seq<char> {
    let inner = trimmed(trim(value), CharClass::LinkPunctuation);
    if inner.len() == 0 || !names_service(inner) {
        Seq::empty()
    } else if has_scheme(inner) {
        inner
    } else {
        "https://"@ + inner
    }
}

/// The link that a piece of text is, or nothing where it is none.
pub fn clean_link(value: &str) -> (link: String)
    ensures
        link@ == cleaned_link(value@),
{
    let inner = trim_class(&trim_text(value), CharClass::LinkPunctuation);
    if inner.as_str().is_empty() {
        return String::new();
    }
    let lower = to_ascii_lower(&inner);
    if !has_part(&lower, "mega.nz/") && !has_part(&lower, "mega.co.nz/") {
        return String::new();
    }
    if !has_prefix(&lower, "http://") && !has_prefix(&lower, "https://") {
        let mut link = "https://".to_string();
        link.append(&inner);
        return link;
    }
    inner
}

/// The links among pieces of text, each once, in the order in which they come first.
pub open spec fn links_among(pieces: Seq<Seq<char>>) -> Seq<Seq<char>>
    decreases pieces.len(),
{
    if pieces.len() == 0 {
        Seq::empty()
    } else {
        let before = links_among(pieces.drop_last());
        let link = cleaned_link(pieces.last());
        if link.len() == 0 || before.contains(link) {
            before
        } else {
            before.push(link)
        }
    }
}

/// The links in text, each once, in the order in which they come first.
pub open spec fn links_of(text: Seq<char>) -> Seq<Seq<char>> {
    links_among(split(text, CharClass::LinkSeparator))
}

/// Whether a list holds this text.
fn holds_text(texts: &Vec<String>, text: &str) -> (found: bool)
    ensures
        found == views(texts@).contains(text@),
{
    let ghost all = views(texts@);
    let mut i: usize = 0;
    while i < texts.len()
        invariant
            all == views(texts@),
            i <= texts@.len(),
            forall|j: int| 0 <= j < i ==> all[j] != text@,
        decreases texts@.len() - i,
    {
        if same_text(&texts[i], text) {
            assert(all[i as int] == text@);
            return true;
        }
        i = i + 1;
    }
    false
}

/// The links in text, each once, in the order in which they come first.
pub fn extract_mega_links(text: &str) -> (links: Vec<String>)
    ensures
        views(links@) == links_of(text@),
{
    let pieces = split_text(text, CharClass::LinkSeparator);
    let ghost all = views(pieces@);
    let mut links: Vec<String> = Vec::new();
    let mut i: usize = 0;
    assert(all.take(0).len() == 0);
    assert(views(links@) == Seq::<Seq<char>>::empty());
    while i < pieces.len()
        invariant
            all == views(pieces@),
            i <= pieces@.len(),
            views(links@) == links_among(all.take(i as int)),
        decreases pieces@.len() - i,
    {
        assert(all.take(i + 1).drop_last() == all.take(i as int));
        assert(all.take(i + 1).last() == pieces@[i as int]@);
        let link = clean_link(&pieces[i]);
        if !link.as_str().is_empty() && !holds_text(&links, &link) {
            let ghost before = links@;
            let ghost found = link@;
            links.push(link);
            assert(views(links@) == views(before).push(found));
        }
        i = i + 1;
    }
    assert(all.take(all.len() as int) == all);
    links
}

/// No link is listed twice.
pub proof fn links_are_listed_once(pieces: Seq<Seq<char>>)
    ensures
        links_among(pieces).no_duplicates(),
    decreases pieces.len(),
{
    if pieces.len() > 0 {
        links_are_listed_once(pieces.drop_last());
        let before = links_among(pieces.drop_last());
        let link = cleaned_link(pieces.last());
        let all = links_among(pieces);
        assert forall|i: int, j: int|
            0 <= i < all.len() && 0 <= j < all.len() && i != j implies all[i] != all[j] by {
            if i < before.len() && j < before.len() {
                assert(before[i] != before[j]);
            } else if i < before.len() {
                assert(before.contains(before[i]));
            } else if j < before.len() {
                assert(before.contains(before[j]));
            }
        }
    }
}

/// Every link that is listed names the service and starts like a web address.
pub proof fn listed_links_are_links(pieces: Seq<Seq<char>>, i: int)
    requires
        0 <= i < links_among(pieces).len(),
    ensures
        names_service(links_among(pieces)[i]),
        has_scheme(links_among(pieces)[i]),
    decreases pieces.len(),
{
    if pieces.len() > 0 {
        let before = links_among(pieces.drop_last());
        if i < before.len() {
            listed_links_are_links(pieces.drop_last(), i);
        } else {
            lemma_cleaned_is_link(pieces.last());
        }
    }
}

/// What is left of text that is a link is a link.
proof fn lemma_cleaned_is_link(value: Seq<char>)
    requires
        cleaned_link(value).len() > 0,
    ensures
        names_service(cleaned_link(value)),
        has_scheme(cleaned_link(value)),
{
    let inner = trimmed(trim(value), CharClass::LinkPunctuation);
    if !has_scheme(inner) {
        let link = "https://"@ + inner;
        reveal_strlit("https://");
        let low = lowered(link);
        assert(low == lowered("https://"@) + lowered(inner));
        assert(lowered("https://"@) == "https://"@);
        assert(low.take(8) == "https://"@);
        let part = if contains_text(lowered(inner), "mega.nz/"@) {
            "mega.nz/"@
        } else {
            "mega.co.nz/"@
        };
        let at = choose|at: int|
            0 <= at && at + part.len() <= lowered(inner).len() && #[trigger] lowered(
                inner,
            ).subrange(at, at + part.len()) == part;
        assert(low.subrange(at + 8, at + 8 + part.len()) == lowered(inner).subrange(
            at,
            at + part.len(),
        ));
        assert(contains_text(low, part));
    }
}

/// A link is taken as it stands, without the punctuation and then the white space around it. One
/// without a scheme gets one, and text that does not name the service is no link.
pub proof fn links_are_taken_out_of_their_punctuation(
    before: Seq<char>,
    link: Seq<char>,
    behind: Seq<char>,
)
    requires
        link.len() > 0,
        forall|i: int| 0 <= i < before.len() ==> is_link_punctuation(#[trigger] before[i]),
        forall|i: int| 0 <= i < behind.len() ==> is_link_punctuation(#[trigger] behind[i]),
        !is_link_punctuation(link.first()) && !is_whitespace(link.first()),
        !is_link_punctuation(link.last()) && !is_whitespace(link.last()),
    ensures
        names_service(link) && has_scheme(link) ==> cleaned_link(before + link + behind) == link,
        names_service(link) && !has_scheme(link) ==> cleaned_link(before + link + behind)
            == "https://"@ + link,
        !names_service(link) ==> cleaned_link(before + link + behind).len() == 0,
{
    let all = before + link + behind;
    let class = CharClass::LinkPunctuation;
    assert(all.first() == if before.len() > 0 { before[0] } else { link.first() });
    assert(all.last() == if behind.len() > 0 { behind[behind.len() - 1] } else { link.last() });
    trimming_keeps_trimmed_text(all, CharClass::Whitespace);
    assert forall|i: int| 0 <= i < before.len() implies class.has(#[trigger] before[i]) by {
        assert(is_link_punctuation(before[i]));
    }
    assert forall|i: int| 0 <= i < behind.len() implies class.has(#[trigger] behind[i]) by {
        assert(is_link_punctuation(behind[i]));
    }
    trimming_takes_the_edges(before, link, behind, class);
}

/// Punctuation that may stand around a link: closing brackets, and what ends a sentence or a part
/// of one.
pub open spec fn is_link_punctuation(c: char) -> bool {
    c == ')' || c == ']' || c == ',' || c == ';' || c == '.'
}

/// Text names the service exactly if one of its two addresses, in letters of either case, stands
/// in it with a slash behind it.
pub proof fn service_is_named_by_its_addresses(front: Seq<char>, rest: Seq<char>)
    ensures
        names_service(front + "mega.nz/"@ + rest),
        names_service(front + "MEGA.NZ/"@ + rest),
        names_service(front + "mega.co.nz/"@ + rest),
        has_scheme("http://"@ + rest),
        has_scheme("https://"@ + rest),
        has_scheme("HTTPS://"@ + rest),
        has_scheme(rest) ==> rest.len() >= 7,
        names_service(rest) ==> rest.contains('/'),
{
    reveal_strlit("mega.nz/");
    reveal_strlit("MEGA.NZ/");
    reveal_strlit("mega.co.nz/");
    reveal_strlit("http://");
    reveal_strlit("https://");
    reveal_strlit("HTTPS://");
    assert(lowered(front + "mega.nz/"@ + rest) =~= lowered(front) + "mega.nz/"@ + lowered(rest));
    assert(lowered(front + "MEGA.NZ/"@ + rest) =~= lowered(front) + "mega.nz/"@ + lowered(rest));
    assert(lowered(front + "mega.co.nz/"@ + rest) =~= lowered(front) + "mega.co.nz/"@ + lowered(
        rest,
    ));
    assert(lowered("http://"@ + rest) =~= "http://"@ + lowered(rest));
    assert(lowered("https://"@ + rest) =~= "https://"@ + lowered(rest));
    assert(lowered("HTTPS://"@ + rest) =~= "https://"@ + lowered(rest));
    text_contains_its_stretches(lowered(front), "mega.nz/"@, lowered(rest));
    text_contains_its_stretches(lowered(front), "mega.co.nz/"@, lowered(rest));
    text_contains_its_stretches(lowered(front), "http://"@, lowered(rest));
    text_contains_its_stretches(lowered(front), "https://"@, lowered(rest));
    if names_service(rest) {
        let part = if contains_text(lowered(rest), "mega.nz/"@) {
            "mega.nz/"@
        } else {
            "mega.co.nz/"@
        };
        let at = choose|at: int|
            0 <= at <= lowered(rest).len() - part.len() && #[trigger] lowered(rest).subrange(
                at,
                at + part.len(),
            ) == part;
        let end = at + part.len() - 1;
        assert(lowered(rest).subrange(at, at + part.len())[part.len() - 1] == '/');
        assert(lowered(rest)[end] == '/');
        assert(rest[end] == '/');
    }
}

/// The links of text are those of its pieces, all of them and no others, and further pieces only
/// add links behind those that are listed already.
pub proof fn every_link_is_listed(pieces: Seq<Seq<char>>, piece: Seq<char>, link: Seq<char>)
    ensures
        links_among(pieces).contains(link) <==> exists|i: int|
            0 <= i < pieces.len() && cleaned_link(#[trigger] pieces[i]) == link && link.len() > 0,
        links_among(pieces.push(piece)).len() >= links_among(pieces).len(),
        links_among(pieces.push(piece)).take(links_among(pieces).len() as int) == links_among(
            pieces,
        ),
    decreases pieces.len(),
{
    let more = pieces.push(piece);
    assert(more.drop_last() =~= pieces);
    assert(links_among(more).take(links_among(pieces).len() as int) =~= links_among(pieces));
    if pieces.len() > 0 {
        let rest = pieces.drop_last();
        let n = pieces.len() - 1;
        every_link_is_listed(rest, piece, link);
        let before = links_among(rest);
        let last = cleaned_link(pieces.last());
        assert(pieces[n] == pieces.last());
        if links_among(pieces).contains(link) {
            if before.contains(link) {
                let i = choose|i: int|
                    0 <= i < rest.len() && cleaned_link(#[trigger] rest[i]) == link && link.len()
                        > 0;
                assert(pieces[i] == rest[i]);
            } else {
                let k = choose|k: int| 0 <= k < links_among(pieces).len() && links_among(pieces)[k]
                    == link;
                if k < before.len() {
                    assert(before[k] == link);
                }
                assert(last == link);
            }
        }
        if exists|i: int|
            0 <= i < pieces.len() && cleaned_link(#[trigger] pieces[i]) == link && link.len() > 0 {
            let i = choose|i: int|
                0 <= i < pieces.len() && cleaned_link(#[trigger] pieces[i]) == link && link.len()
                    > 0;
            if i < n {
                assert(rest[i] == pieces[i]);
                let k = choose|k: int| 0 <= k < before.len() && before[k] == link;
                assert(links_among(pieces)[k] == link);
            } else if !before.contains(link) {
                assert(links_among(pieces).last() == link);
            } else {
                let k = choose|k: int| 0 <= k < before.len() && before[k] == link;
                assert(links_among(pieces)[k] == link);
            }
        }
    }
}

/// Links that stand on lines of their own, or between quotation marks or angle brackets, are
/// listed one by one.
pub proof fn links_are_found_between_separators(
    front: Seq<char>,
    separator: char,
    piece: Seq<char>,
)
    requires
        separator == '\n' || separator == ' ' || separator == '"' || separator == '\'' || separator
            == '<' || separator == '>',
        is_unbroken(piece, CharClass::LinkSeparator),
    ensures
        links_of(front.push(separator) + piece) == (if cleaned_link(piece).len() == 0 || links_of(
            front,
        ).contains(cleaned_link(piece)) {
            links_of(front)
        } else {
            links_of(front).push(cleaned_link(piece))
        }),
{
    splitting_undoes_joining(front, separator, piece, CharClass::LinkSeparator);
    let pieces = split(front, CharClass::LinkSeparator);
    assert(pieces.push(piece).drop_last() =~= pieces);
}

} // verus!
