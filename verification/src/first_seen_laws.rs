//! What the first-seen values of a comparison are, field by field.

use crate::comparison::{
    entities, entity_of, is_first_seen, new_entities, Entity, FirstSeenCounts, FirstSeenPrivate,
};
use crate::finding::FindingExplanation;
use crate::ordered::{increasing, ordered_texts_lists_the_members};
use crate::text::{opt_text, texts};
use vstd::prelude::*;

verus! {

/// Whether some finding of a list has a text in the field that is picked.
pub open spec fn some_has(
    findings: Seq<FindingExplanation>,
    field: spec_fn(FindingExplanation) -> Option<String>,
    text: Seq<char>,
) -> bool {
    exists|i: int| 0 <= i < findings.len() && opt_text(field(#[trigger] findings[i])) == Some(text)
}

proof fn lemma_entities(
    findings: Seq<FindingExplanation>,
    entity: Entity,
    field: spec_fn(FindingExplanation) -> Option<String>,
    text: Seq<char>,
)
    requires
        forall|f: FindingExplanation| #[trigger] entity_of(f, entity) == opt_text(field(f)),
    ensures
        entities(findings, entity).contains(text) == some_has(findings, field, text),
        entities(findings, entity).finite(),
        entities(findings, entity).len() == 0 <==> forall|i: int|
            0 <= i < findings.len() ==> field(#[trigger] findings[i]) is None,
    decreases findings.len(),
{
    if findings.len() > 0 {
        let before = findings.drop_last();
        let last = findings.last();
        lemma_entities(before, entity, field, text);
        assert(entity_of(last, entity) == opt_text(field(last)));
        assert(findings[findings.len() - 1] == last);
        if some_has(before, field, text) {
            let i = choose|i: int|
                0 <= i < before.len() && opt_text(field(#[trigger] before[i])) == Some(text);
            assert(findings[i] == before[i]);
        }
        if some_has(findings, field, text) {
            let i = choose|i: int|
                0 <= i < findings.len() && opt_text(field(#[trigger] findings[i])) == Some(text);
            if i < before.len() {
                assert(before[i] == findings[i]);
            }
        }
        assert forall|i: int| 0 <= i < before.len() implies before[i] == findings[i] by {}
        if field(last) is None {
            if entities(before, entity).len() == 0 {
                assert forall|i: int| 0 <= i < findings.len() implies field(
                    #[trigger] findings[i],
                ) is None by {
                    if i < before.len() {
                        assert(field(before[i]) is None);
                    }
                }
            }
            if forall|i: int| 0 <= i < findings.len() ==> field(#[trigger] findings[i]) is None {
                assert forall|i: int| 0 <= i < before.len() implies field(
                    #[trigger] before[i],
                ) is None by {
                    assert(field(findings[i]) is None);
                }
            }
        }
    }
}

proof fn lemma_new_entities(
    b: Seq<FindingExplanation>,
    c: Seq<FindingExplanation>,
    entity: Entity,
    field: spec_fn(FindingExplanation) -> Option<String>,
    text: Seq<char>,
)
    requires
        forall|f: FindingExplanation| #[trigger] entity_of(f, entity) == opt_text(field(f)),
    ensures
        new_entities(b, c, entity).contains(text) == (some_has(c, field, text) && !some_has(
            b,
            field,
            text,
        )),
        increasing(new_entities(b, c, entity)),
{
    lemma_entities(b, entity, field, text);
    lemma_entities(c, entity, field, text);
    let fresh = entities(c, entity).difference(entities(b, entity));
    ordered_texts_lists_the_members(fresh);
    assert(new_entities(b, c, entity).to_set().contains(text) == fresh.contains(text));
}

/// A text is first seen as a source address, a host, a path or a JA4 fingerprint exactly where
/// some current finding has it in that field and no baseline finding does. Each is listed once,
/// in the order on texts, and the numbers are those of the lists.
pub proof fn first_seen_values_are_new(
    r: (FirstSeenCounts, FirstSeenPrivate),
    b: Seq<FindingExplanation>,
    c: Seq<FindingExplanation>,
    text: Seq<char>,
)
    requires
        is_first_seen(r, b, c),
    ensures
        texts(r.1.source_ips@).contains(text) == (some_has(
            c,
            |f: FindingExplanation| f.source_ip,
            text,
        ) && !some_has(b, |f: FindingExplanation| f.source_ip, text)),
        texts(r.1.hosts@).contains(text) == (some_has(c, |f: FindingExplanation| f.host, text)
            && !some_has(b, |f: FindingExplanation| f.host, text)),
        texts(r.1.uri_paths@).contains(text) == (some_has(
            c,
            |f: FindingExplanation| f.uri_path,
            text,
        ) && !some_has(b, |f: FindingExplanation| f.uri_path, text)),
        texts(r.1.ja4_fingerprints@).contains(text) == (some_has(
            c,
            |f: FindingExplanation| f.ja4,
            text,
        ) && !some_has(b, |f: FindingExplanation| f.ja4, text)),
        increasing(texts(r.1.source_ips@)),
        increasing(texts(r.1.hosts@)),
        increasing(texts(r.1.uri_paths@)),
        increasing(texts(r.1.ja4_fingerprints@)),
        r.0.source_ips == r.1.source_ips@.len(),
        r.0.hosts == r.1.hosts@.len(),
        r.0.uri_paths == r.1.uri_paths@.len(),
        r.0.ja4_fingerprints == r.1.ja4_fingerprints@.len(),
{
    lemma_new_entities(b, c, Entity::SourceIp, |f: FindingExplanation| f.source_ip, text);
    lemma_new_entities(b, c, Entity::Host, |f: FindingExplanation| f.host, text);
    lemma_new_entities(b, c, Entity::UriPath, |f: FindingExplanation| f.uri_path, text);
    lemma_new_entities(b, c, Entity::Ja4, |f: FindingExplanation| f.ja4, text);
}

/// Client addresses are compared where both runs have one, and then a text is first seen as a
/// client address exactly where some current finding has it as that and no baseline finding does.
/// Otherwise they are left out, and that is said.
pub proof fn first_seen_clients_are_new(
    r: (FirstSeenCounts, FirstSeenPrivate),
    b: Seq<FindingExplanation>,
    c: Seq<FindingExplanation>,
    text: Seq<char>,
)
    requires
        is_first_seen(r, b, c),
    ensures
        ({
            let compared = (exists|i: int|
                0 <= i < b.len() && (#[trigger] b[i]).client_ip is Some) && (exists|i: int|
                0 <= i < c.len() && (#[trigger] c[i]).client_ip is Some);
            &&& r.1.client_ips is Some == compared
            &&& r.0.client_ips is Some == compared
            &&& compared == (r.1.unavailable@.len() == 0)
            &&& r.1.client_ips matches Some(list) ==> {
                &&& texts(list@).contains(text) == (some_has(
                    c,
                    |f: FindingExplanation| f.client_ip,
                    text,
                ) && !some_has(b, |f: FindingExplanation| f.client_ip, text))
                &&& increasing(texts(list@))
            }
        }),
{
    let field = |f: FindingExplanation| f.client_ip;
    lemma_new_entities(b, c, Entity::ClientIp, field, text);
    lemma_entities(b, Entity::ClientIp, field, text);
    lemma_entities(c, Entity::ClientIp, field, text);
    assert(texts(r.1.unavailable@).len() == r.1.unavailable@.len());
    assert forall|i: int| 0 <= i < b.len() implies field(#[trigger] b[i]) == b[i].client_ip by {}
    assert forall|i: int| 0 <= i < c.len() implies field(#[trigger] c[i]) == c[i].client_ip by {}
}

} // verus!
