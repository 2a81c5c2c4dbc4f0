//! Names that the laboratory derives: model identities, directory slugs, receiver
//! identities and the family of a tensor.

use crate::identity::{ModelId, Sha256Digest};
use crate::order::{views, views_push};
use crate::paths::{FilePath, PartModel, PathModel, PathPart};
use crate::text::{
    alphanumeric, ascii_lower, chars_of, collapse, collapsed, collapsing_removes_exactly_the_runs,
    contains_text, is_ascii_alphanumeric, joined, lower, lower_text, lowered, occurs,
    pairs_replaced, prefix_stripped, replace_pairs, strip_prefix, text_eq, text_of, trim, trimmed,
    trimming_keeps_a_middle_part, without_runs, Margin,
};
use vstd::prelude::*;
use vstd::utf8::{decode_utf8, valid_utf8};

verus! {

broadcast use views_push;

/// The longest model identity, in characters.
pub const MAX_MODEL_ID_CHARS: usize = 128;

/// The longest slug, in characters.
pub const MAX_SLUG_CHARS: usize = 96;

/// `std::str::from_utf8`: the text that bytes encode, for exactly the bytes that
/// are valid UTF-8.
#[verifier::external_body]
fn utf8_text(bytes: &[u8]) -> (text: Option<String>)
    ensures
        match text {
            Some(t) => valid_utf8(bytes@) && t@ == decode_utf8(bytes@),
            None => !valid_utf8(bytes@),
        },
{
    match std::str::from_utf8(bytes) {
        Ok(text) => Some(text.to_owned()),
        Err(_) => None,
    }
}

/// The text of a path component, where it has one.
pub open spec fn component_text(part: PartModel) -> Option<Seq<char>> {
    match part {
        PartModel::Root => Some("/"@),
        PartModel::Here => Some("."@),
        PartModel::Parent => Some(".."@),
        PartModel::Name(name) => if valid_utf8(name) {
            Some(decode_utf8(name))
        } else {
            None
        },
    }
}

/// The texts of the components that have one.
pub open spec fn component_texts(parts: Seq<PartModel>) -> Seq<Seq<char>>
    decreases parts.len(),
{
    if parts.len() == 0 {
        Seq::empty()
    } else {
        match component_text(parts.last()) {
            Some(text) => component_texts(parts.drop_last()).push(text),
            None => component_texts(parts.drop_last()),
        }
    }
}

/// Some component before the last is the directory `snapshots`.
pub open spec fn below_snapshots(texts: Seq<Seq<char>>) -> bool {
    exists|i: int| 0 <= i < texts.len() - 1 && #[trigger] texts[i] == "snapshots"@
}

/// The name that a model directory goes by: the repository that a snapshot
/// belongs to, or the directory itself.
pub open spec fn raw_model_name(root: PathModel) -> Seq<char> {
    let texts = component_texts(root.parts);
    if texts.len() >= 3 && below_snapshots(texts) {
        texts[texts.len() - 3]
    } else {
        match root.file_name() {
            Some(name) => if valid_utf8(name) {
                decode_utf8(name)
            } else {
                "receiver"@
            },
            None => "receiver"@,
        }
    }
}

/// A character of a model identity.
pub open spec fn model_char(c: char) -> char {
    if is_ascii_alphanumeric(c) {
        ascii_lower(c)
    } else if c == '.' || c == '-' || c == '_' {
        c
    } else {
        '-'
    }
}

/// A name with only the characters of a model identity.
pub open spec fn model_chars(name: Seq<char>) -> Seq<char> {
    name.map_values(|c: char| model_char(c))
}

/// A model name without its repository prefix, with only the characters of a
/// model identity, single dots, and no separator at its ends.
pub open spec fn normalized_model_name(raw: Seq<char>) -> Seq<char> {
    let dotted = pairs_replaced(prefix_stripped(raw, "models--"@), '-', '-', '.');
    let normalized = trimmed(collapsed(model_chars(dotted), '.'), Margin::Separator);
    if normalized.len() == 0 {
        "receiver"@
    } else {
        normalized
    }
}

/// At most so many characters of a text.
pub open spec fn cut(text: Seq<char>, limit: int) -> Seq<char> {
    if text.len() <= limit {
        text
    } else {
        text.take(limit)
    }
}

/// The identity of the model in a directory.
pub open spec fn model_id_text(root: PathModel) -> Seq<char> {
    cut("local."@ + normalized_model_name(raw_model_name(root)), MAX_MODEL_ID_CHARS as int)
}

/// The text of a path component.
fn text_of_part(part: &PathPart) -> (text: Option<String>)
    ensures
        match text {
            Some(t) => component_text(part@) == Some(t@),
            None => component_text(part@) is None,
        },
{
    match part {
        PathPart::Root => Some("/".to_owned()),
        PathPart::Here => Some(".".to_owned()),
        PathPart::Parent => Some("..".to_owned()),
        PathPart::Name(name) => utf8_text(name.as_slice()),
    }
}

/// The texts of the components that have one.
fn texts_of(root: &FilePath) -> (texts: Vec<String>)
    ensures
        views(texts@) == component_texts(root@.parts),
{
    let ghost parts = root@.parts;
    let mut texts: Vec<String> = Vec::new();
    assert(parts.take(0) == Seq::<PartModel>::empty());
    assert(views(texts@) =~= Seq::empty());
    for i in 0..root.parts.len()
        invariant
            parts == root@.parts,
            views(texts@) == component_texts(parts.take(i as int)),
    {
        assert(parts.take(i + 1).drop_last() == parts.take(i as int));
        assert(parts.take(i + 1).last() == root.parts@[i as int]@);
        if let Some(text) = text_of_part(&root.parts[i]) {
            texts.push(text);
        }
    }
    assert(parts.take(parts.len() as int) == parts);
    texts
}

/// Whether some component before the last is the directory `snapshots`.
fn is_below_snapshots(texts: &Vec<String>) -> (below: bool)
    ensures
        below == below_snapshots(views(texts@)),
{
    let ghost models = views(texts@);
    if texts.len() == 0 {
        return false;
    }
    for i in 0..texts.len() - 1
        invariant
            texts@.len() > 0,
            models == views(texts@),
            forall|j: int| 0 <= j < i ==> #[trigger] models[j] != "snapshots"@,
    {
        assert(models[i as int] == texts@[i as int]@);
        if text_eq(texts[i].as_str(), "snapshots") {
            return true;
        }
    }
    false
}

/// The name that a model directory goes by.
fn raw_name(root: &FilePath) -> (name: String)
    ensures
        name@ == raw_model_name(root@),
{
    let texts = texts_of(root);
    if texts.len() >= 3 && is_below_snapshots(&texts) {
        let at: usize = texts.len() - 3;
        assert(views(texts@)[at as int] == texts@[at as int]@);
        return texts[at].clone();
    }
    let n: usize = root.parts.len();
    if n == 0 {
        return "receiver".to_owned();
    }
    assert(root@.parts.last() == root.parts@[n - 1]@);
    match &root.parts[n - 1] {
        PathPart::Name(name) => match utf8_text(name.as_slice()) {
            Some(text) => text,
            None => "receiver".to_owned(),
        },
        _ => "receiver".to_owned(),
    }
}

/// At most so many characters of a text.
fn cut_chars(chars: &Vec<char>, limit: usize) -> (out: Vec<char>)
    ensures
        out@ == cut(chars@, limit as int),
{
    let mut out: Vec<char> = Vec::new();
    let end: usize = if chars.len() <= limit {
        chars.len()
    } else {
        limit
    };
    for i in 0..end
        invariant
            end <= chars.len(),
            out@ == chars@.take(i as int),
    {
        out.push(chars[i]);
        assert(chars@.take(i + 1) == chars@.take(i as int).push(chars@[i as int]));
    }
    assert(chars@.take(chars@.len() as int) == chars@);
    out
}

/// The identity of the model in a directory.
pub fn model_id_from_root(model_root: &FilePath) -> (id: String)
    ensures
        id@ == model_id_text(model_root@),
{
    let raw = raw_name(model_root);
    let stripped = strip_prefix(&chars_of(raw.as_str()), "models--");
    let dotted = replace_pairs(&stripped, '-', '-', '.');
    let mut mapped: Vec<char> = Vec::new();
    for i in 0..dotted.len()
        invariant
            mapped@ == model_chars(dotted@.take(i as int)),
    {
        let c = dotted[i];
        mapped.push(
            if alphanumeric(c) {
                lower(c)
            } else if c == '.' || c == '-' || c == '_' {
                c
            } else {
                '-'
            },
        );
        assert(dotted@.take(i + 1) == dotted@.take(i as int).push(c));
        assert(model_chars(dotted@.take(i + 1)) =~= model_chars(dotted@.take(i as int)).push(
            model_char(c),
        ));
    }
    assert(dotted@.take(dotted@.len() as int) == dotted@);
    let normalized = trim(&collapse(&mapped, '.'), Margin::Separator);
    let name = if normalized.len() == 0 {
        "receiver".to_owned()
    } else {
        text_of(&normalized)
    };
    let candidate = joined("local.", name.as_str());
    text_of(&cut_chars(&chars_of(candidate.as_str()), MAX_MODEL_ID_CHARS))
}

/// A character that a model identity may hold.
pub open spec fn is_model_char(c: char) -> bool {
    ('0' <= c && c <= '9') || ('a' <= c && c <= 'z') || c == '.' || c == '-' || c == '_'
}

/// A lower-case letter or a digit.
pub open spec fn is_lower_alphanumeric(c: char) -> bool {
    ('0' <= c && c <= '9') || ('a' <= c && c <= 'z')
}

/// Every model identity begins with `local.` and a lower-case letter or a digit
/// after it, is not longer than its limit, holds only lower-case letters, digits
/// and separators, and has no two dots in a row.
pub proof fn model_ids_are_well_formed(root: PathModel)
    ensures
        ({
            let id = model_id_text(root);
            &&& 6 < id.len() <= MAX_MODEL_ID_CHARS
            &&& id.take(6) == "local."@
            &&& is_lower_alphanumeric(id[6])
            &&& without_runs(id, '.')
            &&& forall|i: int| 0 <= i < id.len() ==> is_model_char(#[trigger] id[i])
        }),
{
    reveal_strlit("local.");
    reveal_strlit("receiver");
    let raw = raw_model_name(root);
    let dotted = pairs_replaced(prefix_stripped(raw, "models--"@), '-', '-', '.');
    let mapped = model_chars(dotted);
    let single = collapsed(mapped, '.');
    collapsing_removes_exactly_the_runs(mapped, '.');
    lemma_collapsed_chars(mapped, '.');
    let (a, b) = trimming_keeps_a_middle_part(single, Margin::Separator);
    let name = normalized_model_name(raw);
    let whole = "local."@ + name;
    assert forall|i: int| 0 <= i < name.len() implies is_model_char(#[trigger] name[i]) by {
        let middle = trimmed(single, Margin::Separator);
        if middle.len() > 0 {
            assert(name[i] == single[a + i]);
            let k = choose|k: int| 0 <= k < mapped.len() && mapped[k] == single[a + i];
            assert(mapped[k] == model_char(dotted[k]));
            lemma_model_char(dotted[k]);
        }
    }
    assert forall|i: int| 0 <= i && i + 1 < whole.len() && #[trigger] whole[i] == '.' implies whole[i
        + 1] != '.' by {
        if i >= 6 {
            let j = i - 6;
            assert(whole[i] == name[j] && whole[i + 1] == name[j + 1]);
            let middle = trimmed(single, Margin::Separator);
            if middle.len() > 0 {
                assert(name[j] == single[a + j] && name[j + 1] == single[a + j + 1]);
            }
        } else if i == 5 {
            assert(whole[6] == name[0]);
        }
    }
    assert forall|i: int| 0 <= i < whole.len() implies is_model_char(#[trigger] whole[i]) by {
        if i >= 6 {
            assert(whole[i] == name[i - 6]);
        }
    }
    let id = model_id_text(root);
    assert(id.take(6) =~= "local."@);
    assert(id[6] == name[0]);
    assert(is_model_char(name[0]));
    assert forall|i: int| 0 <= i && i + 1 < id.len() && #[trigger] id[i] == '.' implies id[i + 1]
        != '.' by {
        assert(id[i] == whole[i] && id[i + 1] == whole[i + 1]);
    }
}

proof fn lemma_model_char(c: char)
    ensures
        is_model_char(model_char(c)),
{
}

proof fn lemma_collapsed_chars(s: Seq<char>, c: char)
    ensures
        forall|i: int| 0 <= i < collapsed(s, c).len() ==> s.contains(#[trigger] collapsed(s, c)[i]),
    decreases s.len(),
{
    if s.len() > 0 {
        let front = s.drop_last();
        lemma_collapsed_chars(front, c);
        let out = collapsed(s, c);
        assert forall|i: int| 0 <= i < out.len() implies s.contains(#[trigger] out[i]) by {
            let before = collapsed(front, c);
            if i < before.len() {
                assert(out[i] == before[i]);
                let k = choose|k: int| 0 <= k < front.len() && front[k] == before[i];
                assert(s[k] == out[i]);
            } else {
                assert(s[s.len() - 1] == out[i]);
            }
        }
    }
}

/// A character of a slug.
pub open spec fn slug_char(c: char) -> char {
    if is_ascii_alphanumeric(c) {
        ascii_lower(c)
    } else {
        '-'
    }
}

/// A text with only the characters of a slug.
pub open spec fn slug_chars(text: Seq<char>) -> Seq<char> {
    text.map_values(|c: char| slug_char(c))
}

/// The slug of a text: lower-case letters and digits, with single dashes for
/// everything else and none at the ends before it is cut.
pub open spec fn slug_text(text: Seq<char>) -> Seq<char> {
    cut(trimmed(collapsed(slug_chars(text), '-'), Margin::Dash), MAX_SLUG_CHARS as int)
}

/// The slug of a text.
pub fn safe_slug(value: &str) -> (slug: String)
    ensures
        slug@ == slug_text(value@),
{
    let chars = chars_of(value);
    let mut mapped: Vec<char> = Vec::new();
    for i in 0..chars.len()
        invariant
            mapped@ == slug_chars(chars@.take(i as int)),
    {
        let c = chars[i];
        mapped.push(
            if alphanumeric(c) {
                lower(c)
            } else {
                '-'
            },
        );
        assert(chars@.take(i + 1) == chars@.take(i as int).push(c));
        assert(slug_chars(chars@.take(i + 1)) =~= slug_chars(chars@.take(i as int)).push(
            slug_char(c),
        ));
    }
    assert(chars@.take(chars@.len() as int) == chars@);
    let kept = trim(&collapse(&mapped, '-'), Margin::Dash);
    text_of(&cut_chars(&kept, MAX_SLUG_CHARS))
}

/// A character that a slug may hold.
pub open spec fn is_slug_char(c: char) -> bool {
    ('0' <= c && c <= '9') || ('a' <= c && c <= 'z') || c == '-'
}

/// A slug can stand as a directory name wherever its text comes from: it is not
/// longer than its limit, holds only lower-case letters, digits and dashes, has
/// no two dashes in a row and does not begin with one. A slug that was not cut at
/// its limit does not end with a dash either, and is its own slug.
pub proof fn slugs_are_safe(text: Seq<char>)
    ensures
        ({
            let slug = slug_text(text);
            &&& slug.len() <= MAX_SLUG_CHARS
            &&& without_runs(slug, '-')
            &&& forall|i: int| 0 <= i < slug.len() ==> is_slug_char(#[trigger] slug[i])
            &&& slug.len() > 0 ==> slug[0] != '-'
            &&& 0 < slug.len() < MAX_SLUG_CHARS ==> slug.last() != '-'
            &&& slug.len() < MAX_SLUG_CHARS ==> slug_text(slug) == slug
        }),
{
    let mapped = slug_chars(text);
    let single = collapsed(mapped, '-');
    collapsing_removes_exactly_the_runs(mapped, '-');
    lemma_collapsed_chars(mapped, '-');
    let (a, b) = trimming_keeps_a_middle_part(single, Margin::Dash);
    let slug = slug_text(text);
    assert forall|i: int| 0 <= i < slug.len() implies is_slug_char(#[trigger] slug[i]) by {
        assert(slug[i] == single[a + i]);
        let k = choose|k: int| 0 <= k < mapped.len() && mapped[k] == single[a + i];
        assert(mapped[k] == slug_char(text[k]));
        lemma_slug_char(text[k]);
    }
    assert forall|i: int| 0 <= i && i + 1 < slug.len() && #[trigger] slug[i] == '-' implies slug[i
        + 1] != '-' by {
        assert(slug[i] == single[a + i] && slug[i + 1] == single[a + i + 1]);
    }
    if slug.len() < MAX_SLUG_CHARS {
        assert(slug =~= trimmed(single, Margin::Dash));
        assert(slug_chars(slug) =~= slug) by {
            assert forall|i: int| 0 <= i < slug.len() implies slug_char(slug[i]) == slug[i] by {
                lemma_slug_char_stays(slug[i]);
            }
        }
        collapsing_removes_exactly_the_runs(slug, '-');
        assert(trimmed(slug, Margin::Dash) == slug);
    }
}

proof fn lemma_slug_char_stays(c: char)
    requires
        is_slug_char(c),
    ensures
        slug_char(c) == c,
{
}

proof fn lemma_slug_char(c: char)
    ensures
        is_slug_char(slug_char(c)),
{
}

/// The family that a tensor belongs to by its name: attention first, then
/// normalisation, feed-forward, embedding, and everything else.
pub open spec fn family_rank(name: Seq<char>) -> u8 {
    let name = lowered(name);
    if occurs(name, "attn"@) || occurs(name, "attention"@) || occurs(name, "q_proj"@) {
        0
    } else if occurs(name, "norm"@) || occurs(name, "layernorm"@) {
        1
    } else if occurs(name, "mlp"@) || occurs(name, "ffn"@) || occurs(name, "up_proj"@) || occurs(
        name,
        "down_proj"@,
    ) || occurs(name, "gate_proj"@) {
        2
    } else if occurs(name, "embed"@) {
        3
    } else {
        4
    }
}

/// The rank of the family that a tensor belongs to.
pub fn module_family_rank(name: &str) -> (rank: u8)
    ensures
        rank == family_rank(name@),
{
    let name = lower_text(&chars_of(name));
    if contains_text(&name, "attn") || contains_text(&name, "attention") || contains_text(
        &name,
        "q_proj",
    ) {
        0
    } else if contains_text(&name, "norm") || contains_text(&name, "layernorm") {
        1
    } else if contains_text(&name, "mlp") || contains_text(&name, "ffn") || contains_text(
        &name,
        "up_proj",
    ) || contains_text(&name, "down_proj") || contains_text(&name, "gate_proj") {
        2
    } else if contains_text(&name, "embed") {
        3
    } else {
        4
    }
}

/// How many characters of a digest name a receiver.
pub const RECEIVER_DIGEST_CHARS: usize = 12;

/// The identity of a receiver: its model and the beginning of its snapshot digest.
pub open spec fn receiver_id_text(model_id: Seq<char>, manifest_sha256: Seq<char>) -> Seq<char> {
    model_id + "."@ + manifest_sha256.take(RECEIVER_DIGEST_CHARS as int)
}

/// The identity of a receiver. The digest must be long enough to be cut, and
/// ASCII up to the cut, as every hexadecimal digest is.
pub fn receiver_id(model_id: &ModelId, manifest_sha256: &Sha256Digest) -> (id: String)
    requires
        manifest_sha256@.len() >= RECEIVER_DIGEST_CHARS,
        forall|i: int| 0 <= i < RECEIVER_DIGEST_CHARS ==> (#[trigger] manifest_sha256@[i]) as u32 <= 127,
    ensures
        id@ == receiver_id_text(model_id@, manifest_sha256@),
{
    let digest = chars_of(manifest_sha256.as_str());
    let head = text_of(&cut_chars(&digest, RECEIVER_DIGEST_CHARS));
    assert(digest@.take(digest@.len() as int) == digest@);
    let prefix = joined(model_id.as_str(), ".");
    joined(prefix.as_str(), head.as_str())
}

/// The family of a tensor goes by the words in its name, in either case: a word of
/// an earlier family wins over those of later ones, and every family but the last is
/// given only to names that hold one of its words.
pub proof fn families_go_by_the_words_in_a_name(name: Seq<char>)
    ensures
        ({
            let low = lowered(name);
            let rank = family_rank(name);
            let attention = occurs(low, "attn"@) || occurs(low, "attention"@) || occurs(
                low,
                "q_proj"@,
            );
            let norm = occurs(low, "norm"@) || occurs(low, "layernorm"@);
            let feed_forward = occurs(low, "mlp"@) || occurs(low, "ffn"@) || occurs(
                low,
                "up_proj"@,
            ) || occurs(low, "down_proj"@) || occurs(low, "gate_proj"@);
            &&& rank <= 4
            &&& rank == 0 <==> attention
            &&& rank <= 1 <==> attention || norm
            &&& rank <= 2 <==> attention || norm || feed_forward
            &&& rank <= 3 <==> attention || norm || feed_forward || occurs(low, "embed"@)
        }),
        forall|other: Seq<char>|
            lowered(other) == lowered(name) ==> #[trigger] family_rank(other) == family_rank(name),
{
}

/// A receiver's identity is its model's, a dot, and the first twelve characters of
/// the manifest's digest. So two identities with models of one length are equal only
/// where the models and those characters are.
pub proof fn receivers_are_named_after_model_and_manifest(
    model_id: Seq<char>,
    manifest: Seq<char>,
    other_model: Seq<char>,
    other_manifest: Seq<char>,
)
    requires
        manifest.len() >= 12,
        other_manifest.len() >= 12,
    ensures
        ({
            let id = receiver_id_text(model_id, manifest);
            &&& id.len() == model_id.len() + 13
            &&& forall|i: int| 0 <= i < model_id.len() ==> #[trigger] id[i] == model_id[i]
            &&& id[model_id.len() as int] == '.'
            &&& forall|i: int|
                0 <= i < 12 ==> id[model_id.len() + 1 + i] == #[trigger] manifest[i]
        }),
        model_id.len() == other_model.len() && receiver_id_text(model_id, manifest)
            == receiver_id_text(other_model, other_manifest) ==> model_id == other_model
            && manifest.take(12) == other_manifest.take(12),
{
    reveal_strlit(".");
    let id = receiver_id_text(model_id, manifest);
    let other = receiver_id_text(other_model, other_manifest);
    assert(id.take(model_id.len() as int) == model_id);
    assert(id.skip(model_id.len() as int + 1) == manifest.take(12));
    assert(forall|i: int|
        0 <= i < 12 ==> id[model_id.len() + 1 + i] == #[trigger] manifest.take(12)[i]);
    assert forall|i: int| 0 <= i < 12 implies id[model_id.len() + 1 + i] == #[trigger] manifest[i] by {
        assert(manifest.take(12)[i] == manifest[i]);
    }
    assert(other.take(other_model.len() as int) == other_model);
    assert(other.skip(other_model.len() as int + 1) == other_manifest.take(12));
}

/// A slug does not depend on the case of the letters, keeps lower-case letters and
/// digits as they are, and turns every other character into a dash.
pub proof fn slugs_keep_letters_and_digits(text: Seq<char>, c: char)
    ensures
        slug_text(lowered(text)) == slug_text(text),
        is_lower_alphanumeric(c) ==> slug_char(c) == c,
        'A' <= c && c <= 'Z' ==> slug_char(c) as u32 == c as u32 + 32,
        !is_lower_alphanumeric(c) && !('A' <= c && c <= 'Z') ==> slug_char(c) == '-',
        text.len() <= 96 && without_runs(text, '-') && (forall|i: int|
            0 <= i < text.len() ==> is_slug_char(#[trigger] text[i])) && (text.len() > 0 ==> text[0]
            != '-' && text.last() != '-') ==> slug_text(text) == text,
{
    assert(slug_chars(lowered(text)) =~= slug_chars(text));
    if text.len() <= 96 && without_runs(text, '-') && (forall|i: int|
        0 <= i < text.len() ==> is_slug_char(#[trigger] text[i])) && (text.len() > 0 ==> text[0]
        != '-' && text.last() != '-') {
        assert(slug_chars(text) =~= text);
        collapsing_removes_exactly_the_runs(text, '-');
        assert(trimmed(text, Margin::Dash) == text);
    }
}

/// A model identity keeps dots, dashes, underscores, digits and lower-case letters,
/// lowers upper-case letters and turns every other character into a dash.
pub proof fn model_names_keep_their_characters(c: char)
    ensures
        is_model_char(c) ==> model_char(c) == c,
        'A' <= c && c <= 'Z' ==> model_char(c) as u32 == c as u32 + 32,
        !is_model_char(c) && !('A' <= c && c <= 'Z') ==> model_char(c) == '-',
{
}

proof fn lemma_no_pairs_to_replace(s: Seq<char>)
    requires
        without_runs(s, '-'),
    ensures
        pairs_replaced(s, '-', '-', '.') == s,
    decreases s.len(),
{
    if s.len() > 0 {
        assert(without_runs(s.skip(1), '-')) by {
            assert forall|i: int| 0 <= i && i + 1 < s.skip(1).len() && #[trigger] s.skip(1)[i] == '-'
                implies s.skip(1)[i + 1] != '-' by {
                assert(s[i + 1] == '-');
            }
        }
        lemma_no_pairs_to_replace(s.skip(1));
        assert(seq![s[0]] + s.skip(1) == s);
    }
}

/// A name that is already fit for an identity becomes one as it stands: nothing is
/// taken off it and nothing in it is replaced.
pub proof fn fit_names_are_kept(raw: Seq<char>)
    requires
        raw.len() > 0,
        forall|i: int| 0 <= i < raw.len() ==> is_model_char(#[trigger] raw[i]),
        without_runs(raw, '-'),
        without_runs(raw, '.'),
        is_lower_alphanumeric(raw[0]),
        is_lower_alphanumeric(raw.last()),
    ensures
        normalized_model_name(raw) == raw,
{
    reveal_strlit("models--");
    let prefix = "models--"@;
    assert(prefix.len() == 8 && prefix[6] == '-' && prefix[7] == '-');
    if crate::text::occurs_at(raw, prefix, 0) {
        assert(raw.subrange(0, 8)[6] == raw[6]);
        assert(raw.subrange(0, 8)[7] == raw[7]);
        assert(raw[6] == '-' && raw[6int + 1] == '-');
    }
    assert(prefix_stripped(raw, prefix) == raw);
    lemma_no_pairs_to_replace(raw);
    assert(model_chars(raw) =~= raw);
    collapsing_removes_exactly_the_runs(raw, '.');
    assert(trimmed(raw, Margin::Separator) == raw);
}

/// A directory below `snapshots` is named after the directory above it, whatever its
/// own name; any other directory is named after itself; and a path with no readable
/// name gives `receiver`.
pub proof fn model_names_come_from_the_path(
    base: Seq<PartModel>,
    model: Seq<u8>,
    between: Seq<u8>,
    last: Seq<u8>,
)
    requires
        valid_utf8(model),
        valid_utf8(between),
        valid_utf8(last),
        decode_utf8(between) == "snapshots"@,
    ensures
        ({
            let snapshot = PathModel {
                parts: base.push(PartModel::Name(model)).push(PartModel::Name(between)).push(
                    PartModel::Name(last),
                ),
            };
            raw_model_name(snapshot) == decode_utf8(model)
        }),
        ({
            let plain = PathModel { parts: base.push(PartModel::Name(last)) };
            (forall|i: int|
                0 <= i < component_texts(base).len() ==> #[trigger] component_texts(base)[i]
                    != "snapshots"@) ==> raw_model_name(plain) == decode_utf8(last)
        }),
        raw_model_name(PathModel { parts: Seq::<PartModel>::empty() }) == "receiver"@,
{
    let up = base.push(PartModel::Name(model));
    let middle = up.push(PartModel::Name(between));
    let all = middle.push(PartModel::Name(last));
    assert(up.drop_last() == base);
    assert(middle.drop_last() == up);
    assert(all.drop_last() == middle);
    let n = component_texts(base).len();
    let read = component_texts(all);
    assert(component_texts(up) == component_texts(base).push(decode_utf8(model)));
    assert(component_texts(middle) == component_texts(up).push("snapshots"@));
    assert(read == component_texts(middle).push(decode_utf8(last)));
    assert(read[n as int + 1] == "snapshots"@);
    assert(read[n as int] == decode_utf8(model));
    let plain = base.push(PartModel::Name(last));
    assert(plain.drop_last() == base);
    let texts = component_texts(plain);
    assert(texts == component_texts(base).push(decode_utf8(last)));
    if forall|i: int|
        0 <= i < component_texts(base).len() ==> #[trigger] component_texts(base)[i]
            != "snapshots"@ {
        if below_snapshots(texts) {
            let i = choose|i: int| 0 <= i < texts.len() - 1 && #[trigger] texts[i] == "snapshots"@;
            assert(texts[i] == component_texts(base)[i]);
        }
    }
    assert(component_texts(Seq::<PartModel>::empty()).len() == 0);
}

} // verus!
