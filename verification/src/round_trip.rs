//! Proofs that vaulting and unvaulting undo each other.

use crate::key_files::Failure;
use crate::properties_visitor::{
    id_open, id_property_of, law_id_marker_split, is_vault_tag, plan_secret, unvault_text, unvaulted, unvaulted_entries, unvaulted_items,
    vault_failure, vault_failure_entries, vault_failure_items, vault_plan, vaulted, vaulted_entries,
    vaulted_items, vaulted_prefix, vaults_to,
};
use crate::text::{
    find_from, is_trim_of, is_whitespace, lemma_find_from, lemma_trim_is_trim_of, lemma_find_from_is, lemma_rfind_in_is,
    lemma_rfind_in_none, occurs_at, split_on, trim, trim_end, trim_start,
};
use crate::vault_crypto::{
    is_hex_digit, is_vault_body, lines_payload, seals, standard_header, vault_decryption,
    vault_payload,
};
use crate::vault_encryption::{decryption, first_line, seals_with_id, with_standard_header, VaultEncryption};
use crate::vault_header::{header_id_at, header_id_from, header_marker, vault_id_of};
use crate::yaml::Yaml;
use vstd::prelude::*;

verus! {

broadcast use vstd::utf8::group_utf8_lib;

/// Lemma: a line closed by a line feed is the first piece of a split at line feeds.
proof fn lemma_split_first_line(x: Seq<char>, z: Seq<char>)
    requires
        forall|i: int| 0 <= i < x.len() ==> x[i] != '\n',
    ensures
        split_on(x + seq!['\n'] + z, '\n') == seq![x] + split_on(z, '\n'),
{
    let s = x + seq!['\n'] + z;
    assert forall|k: int| 0 <= k < x.len() implies s[k] != '\n' by {
        assert(s[k] == x[k]);
    }
    lemma_find_from_is(s, '\n', 0, x.len() as int);
    assert(s.take(x.len() as int) =~= x);
    assert(s.skip(x.len() as int + 1) =~= z);
}

/// Lemma: a closing line feed adds an empty last piece to a split at line feeds.
proof fn lemma_split_closing_newline(x: Seq<char>)
    ensures
        split_on(x + seq!['\n'], '\n') == split_on(x, '\n') + seq![Seq::<char>::empty()],
    decreases x.len(),
{
    let s = x + seq!['\n'];
    lemma_find_from(x, '\n', 0);
    lemma_find_from(s, '\n', 0);
    match find_from(x, '\n', 0) {
        Some(i) => {
            assert forall|k: int| 0 <= k < i implies s[k] != '\n' by {
                assert(s[k] == x[k]);
            }
            lemma_find_from_is(s, '\n', 0, i);
            assert(s.take(i) =~= x.take(i));
            assert(s.skip(i + 1) =~= x.skip(i + 1) + seq!['\n']);
            lemma_split_closing_newline(x.skip(i + 1));
            assert(split_on(s, '\n') =~= split_on(x, '\n') + seq![Seq::<char>::empty()]);
        },
        None => {
            assert forall|k: int| 0 <= k < x.len() implies s[k] != '\n' by {
                assert(s[k] == x[k]);
            }
            lemma_find_from_is(s, '\n', 0, x.len() as int);
            assert(s.take(x.len() as int) =~= x);
            assert(s.skip(x.len() as int + 1) =~= Seq::<char>::empty());
            let e = Seq::<char>::empty();
            lemma_find_from(e, '\n', 0);
            assert(split_on(e, '\n') == seq![e]);
            assert(split_on(s, '\n') =~= split_on(x, '\n') + seq![e]);
        },
    }
}

/// Lemma: the payload of joined lists of lines is the join of their payloads.
proof fn lemma_lines_payload_concat(a: Seq<Seq<char>>, b: Seq<Seq<char>>)
    ensures
        lines_payload(a + b) == lines_payload(a) + lines_payload(b),
    decreases a.len(),
{
    if a.len() == 0 {
        assert(a + b =~= b);
        assert(lines_payload(a) =~= Seq::<char>::empty());
    } else {
        assert((a + b).drop_first() =~= a.drop_first() + b);
        lemma_lines_payload_concat(a.drop_first(), b);
        assert((a + b)[0] == a[0]);
    }
}

/// Lemma: trimming the empty text gives the empty text.
proof fn lemma_trim_empty()
    ensures
        trim(Seq::<char>::empty()) == Seq::<char>::empty(),
        trim(seq!['\r']) == Seq::<char>::empty(),
{
    assert(trim_start(seq!['\r']) == trim_start(seq!['\r'].drop_first()));
    assert(seq!['\r'].drop_first() =~= Seq::<char>::empty());
}

/// Lemma: a closing line feed does not change the payload.
proof fn lemma_payload_closing_newline(x: Seq<char>)
    ensures
        vault_payload(x + seq!['\n']) == vault_payload(x),
{
    lemma_split_closing_newline(x);
    lemma_lines_payload_concat(split_on(x, '\n'), seq![Seq::<char>::empty()]);
    lemma_trim_empty();
    let one = seq![Seq::<char>::empty()];
    assert(one.drop_first() =~= Seq::<Seq<char>>::empty());
    assert(lines_payload(Seq::<Seq<char>>::empty()) == Seq::<char>::empty());
    assert(one[0] == Seq::<char>::empty());
    assert(lines_payload(one) == trim(one[0]) + lines_payload(one.drop_first()));
    assert(lines_payload(one) =~= Seq::<char>::empty());
    assert(lines_payload(split_on(x, '\n')) + Seq::<char>::empty() =~= lines_payload(
        split_on(x, '\n'),
    ));
}

/// Lemma: closing line feeds do not change the payload.
proof fn lemma_payload_closing_newlines(b: Seq<char>, j: int)
    requires
        0 <= j <= b.len(),
        forall|k: int| j <= k < b.len() ==> b[k] == '\n',
    ensures
        vault_payload(b.take(j)) == vault_payload(b),
    decreases b.len() - j,
{
    if j < b.len() {
        lemma_payload_closing_newlines(b, j + 1);
        assert(b.take(j + 1) =~= b.take(j) + seq!['\n']);
        lemma_payload_closing_newline(b.take(j));
    } else {
        assert(b.take(j) =~= b);
    }
}

/// Lemma: trimming the end keeps a prefix and drops only white space.
proof fn lemma_trim_end_prefix(s: Seq<char>)
    ensures
        trim_end(s).len() <= s.len(),
        trim_end(s) == s.take(trim_end(s).len() as int),
        forall|k: int| trim_end(s).len() <= k < s.len() ==> is_whitespace(#[trigger] s[k]),
        trim_end(s).len() > 0 ==> !is_whitespace(trim_end(s).last()),
    decreases s.len(),
{
    if s.len() > 0 && is_whitespace(s.last()) {
        lemma_trim_end_prefix(s.drop_last());
        assert(s.drop_last().take(trim_end(s).len() as int) =~= s.take(trim_end(s).len() as int));
        assert forall|k: int| trim_end(s).len() <= k < s.len() implies is_whitespace(#[trigger] s[k]) by {
            if k < s.len() - 1 {
                assert(s[k] == s.drop_last()[k]);
            }
        }
    } else {
        assert(s.take(s.len() as int) =~= s);
    }
}

/// Lemma: trimming the end of a text whose tail holds a character that is not white space
/// only trims that tail.
proof fn lemma_trim_end_concat(a: Seq<char>, b: Seq<char>, i: int)
    requires
        0 <= i < b.len(),
        !is_whitespace(b[i]),
    ensures
        trim_end(a + b) == a + trim_end(b),
    decreases b.len(),
{
    if is_whitespace(b.last()) {
        assert((a + b).drop_last() =~= a + b.drop_last());
        assert((a + b).last() == b.last());
        lemma_trim_end_concat(a, b.drop_last(), i);
    } else {
        assert((a + b).last() == b.last());
    }
}

/// Lemma: trimming the start of a text that starts with a character that is not white space
/// keeps it.
proof fn lemma_trim_start_keeps(s: Seq<char>)
    requires
        s.len() > 0,
        !is_whitespace(s[0]),
    ensures
        trim_start(s) == s,
{
}

/// The part of a vault body that trimming keeps: all but its closing line feeds.
proof fn lemma_vault_body_trim(b: Seq<char>) -> (j: int)
    requires
        is_vault_body(b),
    ensures
        1 <= j <= b.len(),
        trim_end(b) == b.take(j),
        is_hex_digit(b[0]),
        vault_payload(b.take(j)) == vault_payload(b),
        forall|k: int| 0 <= k < j ==> (#[trigger] b[k]) != '$',
{
    lemma_trim_end_prefix(b);
    let j = trim_end(b).len() as int;
    assert(!is_whitespace(b[0]));
    if j == 0 {
        lemma_trim_end_concat(Seq::<char>::empty(), b, 0);
        assert(Seq::<char>::empty() + b =~= b);
        lemma_trim_end_keeps_first_char(b);
    }
    assert forall|k: int| j <= k < b.len() implies b[k] == '\n' by {
        assert(is_whitespace(b[k]));
        assert(is_hex_digit(b[k]) || b[k] == '\n');
    }
    lemma_payload_closing_newlines(b, j);
    assert forall|k: int| 0 <= k < j implies (#[trigger] b[k]) != '$' by {
        assert(is_hex_digit(b[k]) || b[k] == '\n');
    }
    j
}

/// Lemma: trimming the end of a text that starts with a character that is not white space
/// keeps that character.
proof fn lemma_trim_end_keeps_first_char(s: Seq<char>)
    requires
        s.len() > 0,
        !is_whitespace(s[0]),
    ensures
        trim_end(s).len() > 0,
    decreases s.len(),
{
    if is_whitespace(s.last()) {
        lemma_trim_end_keeps_first_char(s.drop_last());
    }
}

/// Facts about the characters of the standard header and of the header marker.
proof fn lemma_header_chars()
    ensures
        standard_header().len() == 25,
        header_marker().len() == 15,
        standard_header().take(15) == header_marker(),
        standard_header()[0] == '$',
        standard_header()[15] == '1',
        standard_header()[16] == '.',
        standard_header()[17] == '1',
        standard_header()[18] == ';',
        standard_header()[24] == '6',
        forall|k: int| 0 <= k < 25 ==> (#[trigger] standard_header()[k]) != '\n',
        forall|k: int| 1 <= k < 25 ==> (#[trigger] standard_header()[k]) != '$',
        forall|k: int| 19 <= k < 25 ==> (#[trigger] standard_header()[k]) != ';',
{
    reveal_strlit("$ANSIBLE_VAULT;1.1;AES256");
    reveal_strlit("$ANSIBLE_VAULT;");
    assert(standard_header().take(15) =~= header_marker());
}

/// Lemma: no header starts at or after `p` where no `$` occurs.
proof fn lemma_no_header_from(t: Seq<char>, p: int)
    requires
        0 <= p,
        forall|q: int| p <= q < t.len() ==> t[q] != '$',
    ensures
        header_id_from(t, p) is None,
    decreases t.len() - p,
{
    lemma_header_chars();
    if p < t.len() {
        if occurs_at(t, p, header_marker()) {
            assert(t.subrange(p, p + 15)[0] == header_marker()[0]);
            assert(header_marker()[0] == standard_header()[0]);
        }
        lemma_no_header_from(t, p + 1);
    }
}

/// Lemma: a vault sealed with the standard header names no vault identifier, and decrypts,
/// once trimmed, to what it seals.
pub proof fn lemma_open_sealed(t: Seq<char>, plain: Seq<char>, secret: Seq<char>)
    requires
        seals(t, plain, secret),
    ensures
        vault_id_of(t) is None,
        decryption(trim(t), secret) == Ok::<Seq<char>, Failure>(plain),
{
    lemma_header_chars();
    let h = standard_header();
    let b = t.skip(26);
    let j = lemma_vault_body_trim(b);
    let head = h + seq!['\n'];
    assert(t =~= head + b);
    // trimming
    assert(!is_whitespace(t[0]));
    lemma_trim_start_keeps(t);
    lemma_trim_end_concat(head, b, 0);
    let tt = head + b.take(j);
    assert(trim(t) == tt);
    // the first line is the standard header
    assert forall|k: int| 0 <= k < 25 implies tt[k] != '\n' by {
        assert(tt[k] == h[k]);
    }
    lemma_find_from_is(tt, '\n', 0, 25);
    assert(tt[24] == h[24]);
    assert(tt.take(25) =~= h);
    assert(first_line(tt) == Some(h));
    assert(with_standard_header(tt) == Some(tt));
    assert(tt =~= h + seq!['\n'] + b.take(j));
    assert(vault_decryption(h + seq!['\n'] + b.take(j), secret) == Some(
        vstd::utf8::encode_utf8(plain),
    ));
    // no identifier
    let line = t.subrange(15, 25);
    assert(occurs_at(t, 0, header_marker())) by {
        assert(t.subrange(0, 15) =~= h.take(15));
    }
    assert forall|k: int| 15 <= k < 25 implies t[k] != '\n' by {
        assert(t[k] == h[k]);
    }
    lemma_find_from_is(t, '\n', 15, 25);
    assert forall|k: int| 3 < k < 10 implies line[k] != ';' by {
        assert(line[k] == h[k + 15]);
    }
    assert(line[3] == h[18]);
    lemma_rfind_in_is(line, ';', 0, 10, 3);
    assert(line[1] == h[16]);
    lemma_rfind_in_none(line, ';', 1, 2);
    assert(header_id_at(t, 0) is None);
    assert forall|q: int| 1 <= q < t.len() implies t[q] != '$' by {
        if q < 25 {
            assert(t[q] == h[q]);
        } else if q > 25 {
            assert(t[q] == b[q - 26]);
            assert(is_hex_digit(b[q - 26]) || b[q - 26] == '\n');
        }
    }
    lemma_no_header_from(t, 1);
}

/// A vault identifier that a vault header carries back unchanged: it holds no `;` and no
/// line feed, and is not blank.
pub open spec fn clean_id(id: Seq<char>) -> bool {
    &&& forall|i: int| 0 <= i < id.len() ==> id[i] != ';' && id[i] != '\n'
    &&& trim(id).len() != 0
}

/// Lemma: the payload of a first line that is blank, then further lines, is the payload of
/// the further lines.
proof fn lemma_payload_blank_first(x: Seq<char>, z: Seq<char>)
    requires
        x == Seq::<char>::empty() || x == seq!['\r'],
    ensures
        vault_payload(x + seq!['\n'] + z) == vault_payload(z),
{
    assert forall|i: int| 0 <= i < x.len() implies x[i] != '\n' by {}
    lemma_split_first_line(x, z);
    let ps = seq![x] + split_on(z, '\n');
    assert(ps[0] == x);
    assert(ps.drop_first() =~= split_on(z, '\n'));
    lemma_trim_empty();
    assert(lines_payload(ps) == trim(x) + lines_payload(split_on(z, '\n')));
    assert(trim(x) == Seq::<char>::empty());
    assert(Seq::<char>::empty() + lines_payload(split_on(z, '\n')) =~= lines_payload(split_on(z, '\n')));
}

/// Lemma: a vault sealed with an identifier in its header that holds no line feed decrypts,
/// once trimmed, to what it seals.
pub proof fn lemma_decrypt_sealed_with_id(t: Seq<char>, plain: Seq<char>, secret: Seq<char>, id: Seq<char>)
    requires
        seals_with_id(t, plain, secret, id),
        forall|i: int| 0 <= i < id.len() ==> id[i] != '\n',
    ensures
        decryption(trim(t), secret) == Ok::<Seq<char>, Failure>(plain),
{
    lemma_header_chars();
    let h = standard_header();
    let n = id.len() as int;
    let body = t.skip(27 + n);
    let sealed = h + seq!['\n'] + body;
    assert(sealed.skip(26) =~= body);
    let j = lemma_vault_body_trim(body);
    let head = h + seq![';'] + id + seq!['\n'];
    assert(t =~= head + body);
    // trimming
    assert(!is_whitespace(t[0]));
    lemma_trim_start_keeps(t);
    lemma_trim_end_concat(head, body, 0);
    let tt = head + body.take(j);
    assert(trim(t) == tt);
    // the first line is not the standard header
    assert forall|k: int| 0 <= k < 26 + n implies tt[k] != '\n' by {
        if k < 25 {
            assert(tt[k] == h[k]);
        } else if k > 25 {
            assert(tt[k] == id[k - 26]);
        }
    }
    assert(tt[26 + n] == '\n');
    lemma_find_from_is(tt, '\n', 0, 26 + n);
    let bj = body.take(j);
    let x = if tt[25 + n] == '\r' {
        seq!['\r']
    } else {
        Seq::<char>::empty()
    };
    let first_len = 26 + n - x.len();
    assert(first_line(tt) == Some(tt.take(first_len)));
    assert(tt.take(first_len).len() != h.len());
    assert(tt.skip(first_len) =~= x + seq!['\n'] + bj);
    assert(with_standard_header(tt) == Some(h + seq!['\n'] + tt.skip(first_len)));
    lemma_payload_blank_first(x, bj);
    assert(vault_payload(tt.skip(first_len)) == vault_payload(sealed.skip(26)));
}

/// Lemma: a vault sealed with an identifier in its header names that identifier, and
/// decrypts, once trimmed, to what it seals.
pub proof fn lemma_open_sealed_with_id(t: Seq<char>, plain: Seq<char>, secret: Seq<char>, id: Seq<char>)
    requires
        seals_with_id(t, plain, secret, id),
        clean_id(id),
    ensures
        vault_id_of(t) == Some(id),
        decryption(trim(t), secret) == Ok::<Seq<char>, Failure>(plain),
{
    lemma_header_chars();
    let h = standard_header();
    let n = id.len() as int;
    let body = t.skip(27 + n);
    let head = h + seq![';'] + id + seq!['\n'];
    assert(t =~= head + body);
    assert(n > 0) by {
        if n == 0 {
            assert(id =~= Seq::<char>::empty());
            lemma_trim_empty();
        }
    }
    // the identifier
    assert(occurs_at(t, 0, header_marker())) by {
        assert(t.subrange(0, 15) =~= h.take(15));
    }
    assert forall|k: int| 15 <= k < 26 + n implies t[k] != '\n' by {
        if k < 25 {
            assert(t[k] == h[k]);
        } else if k > 25 {
            assert(t[k] == id[k - 26]);
        }
    }
    assert(t[26 + n] == '\n');
    lemma_find_from_is(t, '\n', 15, 26 + n);
    let line = t.subrange(15, 26 + n);
    assert forall|k: int| 10 < k < 11 + n implies line[k] != ';' by {
        assert(line[k] == id[k - 11]);
    }
    assert(line[10] == ';');
    lemma_rfind_in_is(line, ';', 0, 11 + n, 10);
    assert forall|k: int| 3 < k < 9 implies line[k] != ';' by {
        assert(line[k] == h[k + 15]);
    }
    assert(line[3] == h[18]);
    lemma_rfind_in_is(line, ';', 1, 9, 3);
    assert(line.subrange(11, 11 + n) =~= id);
    assert(header_id_at(t, 0) == Some(id));
    assert(header_id_from(t, 0) == Some(id));
    lemma_decrypt_sealed_with_id(t, plain, secret, id);
}

/// Law: a value encrypted with the secret of a vault identifier decrypts back, once
/// trimmed, under that identifier, provided the identifier holds no line feed.
pub proof fn law_encrypt_then_decrypt_with_id(enc: VaultEncryption, plain: Seq<char>, id: Seq<char>, t: Seq<char>)
    requires
        enc.id_secret(id) matches Ok(secret) && seals_with_id(t, plain, secret, id),
        forall|i: int| 0 <= i < id.len() ==> id[i] != '\n',
    ensures
        VaultEncryption::decrypt_with(enc.id_secret(id), trim(t)) == Ok::<Seq<char>, Failure>(plain),
{
    lemma_decrypt_sealed_with_id(t, plain, enc.id_secret(id)->Ok_0, id);
}

/// Law: a value encrypted with the secret without identifier decrypts back, once trimmed,
/// without identifier.
pub proof fn law_encrypt_then_decrypt_no_id(enc: VaultEncryption, plain: Seq<char>, t: Seq<char>)
    requires
        enc.no_id_secret() matches Ok(secret) && seals(t, plain, secret),
    ensures
        VaultEncryption::decrypt_with(enc.no_id_secret(), trim(t)) == Ok::<Seq<char>, Failure>(plain),
{
    lemma_open_sealed(t, plain, enc.no_id_secret()->Ok_0);
}

/// The clear text that unvaulting gives back for the clear-text value `s` once it has been
/// vaulted: the `<vaulted>` prefix, the identifier marker if `s` has one, and the trimmed
/// text; a value without the prefix is kept.
pub open spec fn clear_text(s: Seq<char>) -> Seq<char> {
    match vault_plan(s) {
        Some((Some(id), plain)) => vaulted_prefix() + id_open() + id + ">"@ + plain,
        Some((None, plain)) => vaulted_prefix() + plain,
        None => s,
    }
}

/// `y` with each clear-text value that is to be vaulted replaced by its `clear_text`.
pub open spec fn normalized(y: Yaml) -> Yaml
    decreases y,
{
    match y {
        Yaml::Str(s) => Yaml::Str(clear_text(s)),
        Yaml::Mapping(es) => Yaml::Mapping(normalized_entries(es)),
        Yaml::Sequence(xs) => Yaml::Sequence(normalized_items(xs)),
        _ => y,
    }
}

/// The items `xs`, each normalized.
pub open spec fn normalized_items(xs: Seq<Yaml>) -> Seq<Yaml>
    decreases xs,
{
    if xs.len() == 0 {
        seq![]
    } else {
        normalized_items(xs.drop_last()).push(normalized(xs.last()))
    }
}

/// The entries `es`, each value normalized.
pub open spec fn normalized_entries(es: Seq<(Yaml, Yaml)>) -> Seq<(Yaml, Yaml)>
    decreases es,
{
    if es.len() == 0 {
        seq![]
    } else {
        normalized_entries(es.drop_last()).push((es.last().0, normalized(es.last().1)))
    }
}

/// `y` is fit for a round trip: where unvaulting looks, it holds no string tagged `!vault`,
/// and every vault identifier that its clear-text values name is clean (see `clean_id`).
pub open spec fn round_trip_ready(y: Yaml) -> bool
    decreases y,
{
    match y {
        Yaml::Str(s) => match vault_plan(s) {
            Some((Some(id), _)) => clean_id(id),
            _ => true,
        },
        Yaml::Tagged(tag, inner) => !(is_vault_tag(tag) && inner.is_str()),
        Yaml::Mapping(es) => round_trip_ready_entries(es),
        Yaml::Sequence(xs) => round_trip_ready_items(xs),
        _ => true,
    }
}

/// Every item of `xs` is fit for a round trip.
pub open spec fn round_trip_ready_items(xs: Seq<Yaml>) -> bool
    decreases xs,
{
    xs.len() == 0 || (round_trip_ready_items(xs.drop_last()) && round_trip_ready(xs.last()))
}

/// Every value of the entries `es` is fit for a round trip.
pub open spec fn round_trip_ready_entries(es: Seq<(Yaml, Yaml)>) -> bool
    decreases es,
{
    es.len() == 0 || (round_trip_ready_entries(es.drop_last()) && round_trip_ready(es.last().1))
}

/// Lemma: a clear-text value, once vaulted, unvaults to its `clear_text`.
pub proof fn lemma_text_round_trip(enc: VaultEncryption, s: Seq<char>, t: Seq<char>)
    requires
        vaults_to(enc, s, t),
        vault_plan(s) matches Some((Some(id), _)) ==> clean_id(id),
    ensures
        unvault_text(enc, t) == Ok::<Seq<char>, Failure>(clear_text(s)),
{
    match vault_plan(s) {
        Some((Some(id), plain)) => {
            let secret = plan_secret(enc, Some(id))->Ok_0;
            lemma_open_sealed_with_id(t, plain, secret, id);
        },
        Some((None, plain)) => {
            let secret = plan_secret(enc, None)->Ok_0;
            lemma_open_sealed(t, plain, secret);
        },
        None => {},
    }
}

/// Law: vaulting, then unvaulting, gives back each value that was to be vaulted with its
/// text trimmed (and its identifier marker kept), and leaves all else as it was; for every
/// outcome of the encryption.
pub proof fn law_vault_then_unvault(enc: VaultEncryption, y: Yaml, w: Yaml)
    requires
        vaulted(enc, y, w),
        round_trip_ready(y),
    ensures
        unvaulted(enc, w) == Ok::<Yaml, (Seq<char>, Failure)>(normalized(y)),
    decreases y,
{
    match y {
        Yaml::Str(s) => {
            if vault_plan(s) is Some {
                let t = w->Tagged_1.str_text();
                lemma_text_round_trip(enc, s, t);
                reveal_strlit("vault");
                assert(is_vault_tag(w->Tagged_0));
            }
        },
        Yaml::Mapping(es) => {
            lemma_entries_round_trip(enc, es, w->Mapping_0);
        },
        Yaml::Sequence(xs) => {
            lemma_items_round_trip(enc, xs, w->Sequence_0);
        },
        _ => {},
    }
}

/// The law for the items of a sequence.
proof fn lemma_items_round_trip(enc: VaultEncryption, xs: Seq<Yaml>, ws: Seq<Yaml>)
    requires
        vaulted_items(enc, xs, ws),
        round_trip_ready_items(xs),
    ensures
        unvaulted_items(enc, ws) == Ok::<Seq<Yaml>, (Seq<char>, Failure)>(normalized_items(xs)),
    decreases xs,
{
    if xs.len() > 0 {
        lemma_items_round_trip(enc, xs.drop_last(), ws.drop_last());
        law_vault_then_unvault(enc, xs.last(), ws.last());
    }
}

/// The law for the values of a mapping.
proof fn lemma_entries_round_trip(enc: VaultEncryption, es: Seq<(Yaml, Yaml)>, ws: Seq<(Yaml, Yaml)>)
    requires
        vaulted_entries(enc, es, ws),
        round_trip_ready_entries(es),
    ensures
        unvaulted_entries(enc, ws) == Ok::<Seq<(Yaml, Yaml)>, (Seq<char>, Failure)>(
            normalized_entries(es),
        ),
    decreases es,
{
    if es.len() > 0 {
        lemma_entries_round_trip(enc, es.drop_last(), ws.drop_last());
        law_vault_then_unvault(enc, es.last().1, ws.last().1);
    }
}


/// The clear-text value `s` is settled: if it is to be vaulted, it is already in the form
/// that unvaulting gives back (its text trimmed), and the identifier it names is clean.
pub open spec fn settled_text(s: Seq<char>) -> bool {
    match vault_plan(s) {
        None => true,
        Some((id, _)) => clear_text(s) == s && match id {
            Some(i) => clean_id(i),
            None => true,
        },
    }
}

/// Unvaulting `y` settles: each string that it leaves is settled, and so is each clear text
/// that a string tagged `!vault` unvaults to.
pub open spec fn settled(enc: VaultEncryption, y: Yaml) -> bool
    decreases y,
{
    match y {
        Yaml::Str(s) => settled_text(s),
        Yaml::Tagged(tag, inner) => match *inner {
            Yaml::Str(t) => is_vault_tag(tag) ==> match unvault_text(enc, t) {
                Ok(x) => settled_text(x),
                Err(_) => true,
            },
            _ => true,
        },
        Yaml::Mapping(es) => settled_entries(enc, es),
        Yaml::Sequence(xs) => settled_items(enc, xs),
        _ => true,
    }
}

/// Unvaulting each item of `xs` settles.
pub open spec fn settled_items(enc: VaultEncryption, xs: Seq<Yaml>) -> bool
    decreases xs,
{
    xs.len() == 0 || (settled_items(enc, xs.drop_last()) && settled(enc, xs.last()))
}

/// Unvaulting each value of the entries `es` settles.
pub open spec fn settled_entries(enc: VaultEncryption, es: Seq<(Yaml, Yaml)>) -> bool
    decreases es,
{
    es.len() == 0 || (settled_entries(enc, es.drop_last()) && settled(enc, es.last().1))
}

/// Lemma: what a settling unvaulting gives is fit for a round trip and already normalized.
proof fn lemma_unvaulted_settled(enc: VaultEncryption, y: Yaml, u: Yaml)
    requires
        unvaulted(enc, y) == Ok::<Yaml, (Seq<char>, Failure)>(u),
        settled(enc, y),
    ensures
        round_trip_ready(u),
        normalized(u) == u,
    decreases y,
{
    match y {
        Yaml::Mapping(es) => {
            lemma_unvaulted_settled_entries(enc, es, u->Mapping_0);
        },
        Yaml::Sequence(xs) => {
            lemma_unvaulted_settled_items(enc, xs, u->Sequence_0);
        },
        _ => {},
    }
}

/// The lemma for the items of a sequence.
proof fn lemma_unvaulted_settled_items(enc: VaultEncryption, xs: Seq<Yaml>, us: Seq<Yaml>)
    requires
        unvaulted_items(enc, xs) == Ok::<Seq<Yaml>, (Seq<char>, Failure)>(us),
        settled_items(enc, xs),
    ensures
        round_trip_ready_items(us),
        normalized_items(us) == us,
    decreases xs,
{
    if xs.len() > 0 {
        let done = unvaulted_items(enc, xs.drop_last())->Ok_0;
        let x = unvaulted(enc, xs.last())->Ok_0;
        lemma_unvaulted_settled_items(enc, xs.drop_last(), done);
        lemma_unvaulted_settled(enc, xs.last(), x);
        assert(us == done.push(x));
        assert(us.drop_last() =~= done);
        assert(normalized_items(us) =~= us);
    }
}

/// The lemma for the values of a mapping.
proof fn lemma_unvaulted_settled_entries(enc: VaultEncryption, es: Seq<(Yaml, Yaml)>, us: Seq<(Yaml, Yaml)>)
    requires
        unvaulted_entries(enc, es) == Ok::<Seq<(Yaml, Yaml)>, (Seq<char>, Failure)>(us),
        settled_entries(enc, es),
    ensures
        round_trip_ready_entries(us),
        normalized_entries(us) == us,
    decreases es,
{
    if es.len() > 0 {
        let done = unvaulted_entries(enc, es.drop_last())->Ok_0;
        let x = unvaulted(enc, es.last().1)->Ok_0;
        lemma_unvaulted_settled_entries(enc, es.drop_last(), done);
        lemma_unvaulted_settled(enc, es.last().1, x);
        assert(us == done.push((es.last().0, x)));
        assert(us.drop_last() =~= done);
        assert(normalized_entries(us) =~= us);
    }
}

/// Law: saving a decrypted document unchanged keeps its clear text: unvaulting what vaulting
/// the clear text of an unvaulting gives yields that clear text again, for every outcome of
/// the encryption, provided that unvaulting settles (each value to be vaulted has its text
/// trimmed and names a clean identifier).
pub proof fn law_unvault_vault_unvault(enc: VaultEncryption, y: Yaml, u: Yaml, w: Yaml)
    requires
        unvaulted(enc, y) == Ok::<Yaml, (Seq<char>, Failure)>(u),
        settled(enc, y),
        vaulted(enc, u, w),
    ensures
        unvaulted(enc, w) == Ok::<Yaml, (Seq<char>, Failure)>(u),
{
    lemma_unvaulted_settled(enc, y, u);
    law_vault_then_unvault(enc, u, w);
}


/// Law: vaulting twice is vaulting once: what vaulting gives has no value left to vault, so
/// vaulting it again cannot fail and gives it back unchanged.
pub proof fn law_vault_twice(enc: VaultEncryption, y: Yaml, w: Yaml, w2: Yaml)
    requires
        vaulted(enc, y, w),
    ensures
        vault_failure(enc, w) is None,
        vaulted(enc, w, w2) ==> w2 == w,
    decreases y,
{
    match y {
        Yaml::Mapping(es) => {
            let ws2 = match w2 {
                Yaml::Mapping(x) => x,
                _ => seq![],
            };
            lemma_entries_vault_twice(enc, es, w->Mapping_0, ws2);
        },
        Yaml::Sequence(xs) => {
            let ws2 = match w2 {
                Yaml::Sequence(x) => x,
                _ => seq![],
            };
            lemma_items_vault_twice(enc, xs, w->Sequence_0, ws2);
        },
        _ => {},
    }
}

/// The law for the items of a sequence.
proof fn lemma_items_vault_twice(enc: VaultEncryption, xs: Seq<Yaml>, ws: Seq<Yaml>, ws2: Seq<Yaml>)
    requires
        vaulted_items(enc, xs, ws),
    ensures
        vault_failure_items(enc, ws) is None,
        vaulted_items(enc, ws, ws2) ==> ws2 == ws,
    decreases xs,
{
    if xs.len() > 0 {
        lemma_items_vault_twice(enc, xs.drop_last(), ws.drop_last(), ws2.drop_last());
        law_vault_twice(enc, xs.last(), ws.last(), ws2.last());
        if vaulted_items(enc, ws, ws2) {
            assert(ws2 =~= ws2.drop_last().push(ws2.last()));
            assert(ws =~= ws.drop_last().push(ws.last()));
        }
    } else {
        if vaulted_items(enc, ws, ws2) {
            assert(ws2 =~= ws);
        }
    }
}

/// The law for the values of a mapping.
proof fn lemma_entries_vault_twice(
    enc: VaultEncryption,
    es: Seq<(Yaml, Yaml)>,
    ws: Seq<(Yaml, Yaml)>,
    ws2: Seq<(Yaml, Yaml)>,
)
    requires
        vaulted_entries(enc, es, ws),
    ensures
        vault_failure_entries(enc, ws) is None,
        vaulted_entries(enc, ws, ws2) ==> ws2 == ws,
    decreases es,
{
    if es.len() > 0 {
        lemma_entries_vault_twice(enc, es.drop_last(), ws.drop_last(), ws2.drop_last());
        law_vault_twice(enc, es.last().1, ws.last().1, ws2.last().1);
        if vaulted_entries(enc, ws, ws2) {
            assert(ws2 =~= ws2.drop_last().push(ws2.last()));
            assert(ws =~= ws.drop_last().push(ws.last()));
        }
    } else {
        if vaulted_entries(enc, ws, ws2) {
            assert(ws2 =~= ws);
        }
    }
}

/// Law: every string that starts with `<vaulted>` is to be vaulted, whatever follows the
/// prefix (line feeds included). Without an identifier marker, the text to encrypt is what
/// follows the prefix with white space cut at both ends; with a marker `<id:ID>`, it is what
/// follows the marker, cut the same way, under `ID`.
pub proof fn law_prefixed_text_is_vaulted(s: Seq<char>)
    requires
        s.len() >= 9,
        s.take(9) == "<vaulted>"@,
    ensures
        vault_plan(s) is Some,
        vault_plan(s) matches Some((None, plain)) ==> is_trim_of(s.skip(9), plain),
        vault_plan(s) is Some && (vault_plan(s)->0).0 is Some ==> exists|rest: Seq<char>|
            #![trigger is_trim_of(rest, (vault_plan(s)->0).1)]
            s.skip(9) == "<id:"@ + (vault_plan(s)->0).0->0 + ">"@ + rest && is_trim_of(
                rest,
                (vault_plan(s)->0).1,
            ),
{
    reveal_strlit("<vaulted>");
    reveal_strlit("<id:");
    reveal_strlit(">");
    assert(s.subrange(0, 9) =~= s.take(9));
    assert(occurs_at(s, 0, vaulted_prefix()));
    let rest = s.skip(9);
    match id_property_of(rest) {
        Some((id, stripped)) => {
            law_id_marker_split(rest);
            lemma_trim_is_trim_of(stripped);
            assert(">"@ =~= seq!['>']);
            assert(rest == "<id:"@ + id + ">"@ + stripped);
            assert(vault_plan(s) == Some((Some(id), trim(stripped))));
            assert(rest == "<id:"@ + id + ">"@ + stripped && is_trim_of(stripped, trim(stripped)));
            assert(s.skip(9) == rest);
            let pl = vault_plan(s)->0;
            assert(pl.0->0 == id);
            assert(pl.1 == trim(stripped));
            assert(s.skip(9) == "<id:"@ + pl.0->0 + ">"@ + stripped);
            assert(is_trim_of(stripped, pl.1));
        },
        None => {
            lemma_trim_is_trim_of(rest);
        },
    }
}

/// No string that vaulting looks at (a value of a mapping or an item of a sequence) starts
/// with `<vaulted>`.
pub open spec fn nothing_left_to_vault(y: Yaml) -> bool
    decreases y,
{
    match y {
        Yaml::Str(s) => !(s.len() >= 9 && s.take(9) == "<vaulted>"@),
        Yaml::Mapping(es) => nothing_left_to_vault_entries(es),
        Yaml::Sequence(xs) => nothing_left_to_vault_items(xs),
        _ => true,
    }
}

/// No value of the entries `es` is left to vault.
pub open spec fn nothing_left_to_vault_entries(es: Seq<(Yaml, Yaml)>) -> bool
    decreases es,
{
    es.len() == 0 || (nothing_left_to_vault_entries(es.drop_last()) && nothing_left_to_vault(es.last().1))
}

/// No item of `xs` is left to vault.
pub open spec fn nothing_left_to_vault_items(xs: Seq<Yaml>) -> bool
    decreases xs,
{
    xs.len() == 0 || (nothing_left_to_vault_items(xs.drop_last()) && nothing_left_to_vault(xs.last()))
}

/// Law: after vaulting, no value of a mapping and no item of a sequence starts with
/// `<vaulted>`: every prefixed string was encrypted.
pub proof fn law_vaulting_leaves_no_prefix(enc: VaultEncryption, y: Yaml, w: Yaml)
    requires
        vaulted(enc, y, w),
    ensures
        nothing_left_to_vault(w),
    decreases y,
{
    match y {
        Yaml::Str(s) => {
            if vault_plan(s) is None && s.len() >= 9 && s.take(9) == "<vaulted>"@ {
                law_prefixed_text_is_vaulted(s);
            }
        },
        Yaml::Mapping(es) => {
            lemma_entries_leave_no_prefix(enc, es, w->Mapping_0);
        },
        Yaml::Sequence(xs) => {
            lemma_items_leave_no_prefix(enc, xs, w->Sequence_0);
        },
        _ => {},
    }
}

/// The law for the items of a sequence.
proof fn lemma_items_leave_no_prefix(enc: VaultEncryption, xs: Seq<Yaml>, ws: Seq<Yaml>)
    requires
        vaulted_items(enc, xs, ws),
    ensures
        nothing_left_to_vault_items(ws),
    decreases xs,
{
    if xs.len() > 0 {
        lemma_items_leave_no_prefix(enc, xs.drop_last(), ws.drop_last());
        law_vaulting_leaves_no_prefix(enc, xs.last(), ws.last());
    }
}

/// The law for the values of a mapping.
proof fn lemma_entries_leave_no_prefix(enc: VaultEncryption, es: Seq<(Yaml, Yaml)>, ws: Seq<(Yaml, Yaml)>)
    requires
        vaulted_entries(enc, es, ws),
    ensures
        nothing_left_to_vault_entries(ws),
    decreases es,
{
    if es.len() > 0 {
        lemma_entries_leave_no_prefix(enc, es.drop_last(), ws.drop_last());
        law_vaulting_leaves_no_prefix(enc, es.last().1, ws.last().1);
    }
}

/// Law: a vault's header line does not matter to decryption: a vault sealed under the
/// standard header whose first line is replaced by any other line (such as
/// `$ANSIBLE_VAULT;1.2;AES256;ID`, without line feed or carriage return) still decrypts to
/// what it seals.
pub proof fn law_relabelled_vault_decrypts(t: Seq<char>, plain: Seq<char>, secret: Seq<char>, line: Seq<char>)
    requires
        seals(t, plain, secret),
        forall|i: int| 0 <= i < line.len() ==> line[i] != '\n' && line[i] != '\r',
    ensures
        decryption(line + seq!['\n'] + t.skip(26), secret) == Ok::<Seq<char>, Failure>(plain),
{
    lemma_header_chars();
    let h = standard_header();
    let body = t.skip(26);
    let s = line + seq!['\n'] + body;
    let n = line.len() as int;
    assert(t =~= h + seq!['\n'] + body);
    assert forall|k: int| 0 <= k < n implies s[k] != '\n' by {
        assert(s[k] == line[k]);
    }
    lemma_find_from_is(s, '\n', 0, n);
    if n > 0 {
        assert(s[n - 1] == line[n - 1]);
    }
    assert(s.take(n) =~= line);
    assert(first_line(s) == Some(line));
    if line == h {
        assert(s =~= t);
        assert(vault_decryption(h + seq!['\n'] + body, secret) == Some(vstd::utf8::encode_utf8(plain)));
    } else {
        assert(s.skip(n) =~= Seq::<char>::empty() + seq!['\n'] + body);
        lemma_payload_blank_first(Seq::<char>::empty(), body);
        assert(with_standard_header(s) == Some(h + seq!['\n'] + s.skip(n)));
        assert(vault_decryption(h + seq!['\n'] + s.skip(n), secret) == Some(
            vstd::utf8::encode_utf8(plain),
        ));
    }
}

} // verus!
