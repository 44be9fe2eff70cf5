//! Turning text into a list of scan targets without repetitions.
use vstd::prelude::*;
use vstd::utf8::{
    char_u32_cast, decode_utf8, decode_utf8_encode_utf8, encode_scalar, encode_utf8,
    encode_utf8_decode_utf8, encode_utf8_valid_utf8, has_width_1_encoding, valid_utf8,
};
use crate::text::{
    dedup, dedup_strings, lemma_split_nonempty, split_seq, split_terminator, split_terminator_seq, utf8_text, views,
};

verus! {

/// The lines of `content` as a line reader yields them: the pieces between
/// line feeds, without a final empty piece, where a line that ended in a line
/// feed also loses one carriage return before it.
pub open spec fn raw_lines(content: Seq<u8>) -> Seq<Seq<u8>> {
    let pieces = split_terminator_seq(content, 10u8);
    Seq::new(
        pieces.len(),
        |i: int|
            {
                let p = pieces[i];
                let terminated = i < pieces.len() - 1 || (content.len() > 0 && content.last()
                    == 10u8);
                if terminated && p.len() > 0 && p.last() == 13u8 {
                    p.drop_last()
                } else {
                    p
                }
            },
    )
}

/// The number of leading lines, from `i` on, that are valid UTF-8.
pub open spec fn text_prefix_len(lines: Seq<Seq<u8>>, i: int) -> int
    decreases lines.len() - i,
{
    if i < 0 || i >= lines.len() {
        lines.len() as int
    } else if valid_utf8(lines[i]) {
        text_prefix_len(lines, i + 1)
    } else {
        i
    }
}

/// The text lines of a file's content: its lines up to, not including, the
/// first line that is not valid UTF-8, each decoded.
pub open spec fn text_lines(content: Seq<u8>) -> Seq<Seq<char>> {
    let lines = raw_lines(content);
    lines.take(text_prefix_len(lines, 0)).map_values(|l: Seq<u8>| decode_utf8(l))
}

/// The targets read from a file's content, or from a file that could not be
/// read (`None`): its text lines without repetitions.
pub open spec fn file_targets(content: Option<Seq<u8>>) -> Seq<Seq<char>> {
    match content {
        Some(c) => dedup(text_lines(c)),
        None => Seq::empty(),
    }
}

/// The targets of a block of text: its lines without repetitions.
pub open spec fn text_targets(domains: Seq<char>) -> Seq<Seq<char>> {
    dedup(split_terminator_seq(domains, '\n'))
}

/// The views of a sequence of byte vectors.
pub open spec fn byte_views(v: Seq<Vec<u8>>) -> Seq<Seq<u8>> {
    v.map_values(|x: Vec<u8>| x@)
}

/// Splits bytes at each `sep`, leaving out a final empty piece.
fn split_terminator_bytes(s: &Vec<u8>, sep: u8) -> (res: Vec<Vec<u8>>)
    ensures
        byte_views(res@) == split_terminator_seq(s@, sep),
{
    let mut done: Vec<Vec<u8>> = Vec::new();
    let mut cur: Vec<u8> = Vec::new();
    let mut i: usize = 0;
    while i < s.len()
        invariant
            i <= s.len(),
            byte_views(done@).push(cur@) == split_seq(s@.take(i as int), sep),
        decreases s.len() - i,
    {
        let c = s[i];
        proof {
            assert(s@.take(i + 1).drop_last() == s@.take(i as int));
            lemma_split_nonempty(s@.take(i as int), sep);
        }
        if c == sep {
            let ghost old_done = done@;
            let piece = cur;
            done.push(piece);
            cur = Vec::new();
            assert(byte_views(done@) == byte_views(old_done).push(piece@));
        } else {
            cur.push(c);
        }
        i = i + 1;
    }
    assert(s@.take(s.len() as int) == s@);
    proof {
        lemma_split_nonempty(s@, sep);
    }
    if cur.len() > 0 {
        let ghost old_done = done@;
        done.push(cur);
        assert(byte_views(done@) == byte_views(old_done).push(cur@));
    }
    done
}

/// Reads the targets of a file's content, one per line, each once.
///
/// `content` is what was read from the file, or `None` where it could not be
/// opened; lines are taken as a line reader yields them, and reading stops at
/// the first line that is not valid UTF-8.
pub fn read_file_to_target(content: Option<Vec<u8>>) -> (res: Vec<String>)
    ensures
        views(res@) == file_targets(
            match content {
                Some(c) => Some(c@),
                None => None,
            },
        ),
{
    match content {
        None => Vec::new(),
        Some(c) => {
            let pieces = split_terminator_bytes(&c, 10u8);
            let ends_with_newline = c.len() > 0 && c[c.len() - 1] == 10u8;
            let ghost lines = raw_lines(c@);
            let mut texts: Vec<String> = Vec::new();
            let mut i: usize = 0;
            while i < pieces.len()
                invariant_except_break
                    i <= pieces.len(),
                    pieces.len() == lines.len(),
                    lines == raw_lines(c@),
                    byte_views(pieces@) == split_terminator_seq(c@, 10u8),
                    ends_with_newline == (c@.len() > 0 && c@.last() == 10u8),
                    text_prefix_len(lines, 0) == text_prefix_len(lines, i as int),
                    views(texts@) == lines.take(i as int).map_values(|l: Seq<u8>| decode_utf8(l)),
                ensures
                    views(texts@) == text_lines(c@),
                decreases pieces.len() - i,
            {
                let mut line = pieces[i].clone();
                let terminated = i + 1 < pieces.len() || ends_with_newline;
                let n = line.len();
                if terminated && n > 0 && line[n - 1] == 13u8 {
                    line.pop();
                }
                assert(line@ == lines[i as int]);
                match utf8_text(line.as_slice()) {
                    None => {
                        assert(text_prefix_len(lines, i as int) == i);
                        break;
                    },
                    Some(t) => {
                        let ghost old_texts = texts@;
                        texts.push(t);
                        assert(views(texts@) == views(old_texts).push(t@));
                        assert(lines.take(i + 1).map_values(|l: Seq<u8>| decode_utf8(l))
                            == lines.take(i as int).map_values(|l: Seq<u8>| decode_utf8(l)).push(
                            decode_utf8(lines[i as int]),
                        ));
                    },
                }
                i = i + 1;
            }
            dedup_strings(texts)
        },
    }
}

/// Splits a block of targets into lines, each kept once, in the order of
/// first appearance.
pub fn strings_to_urls(domains: String) -> (res: Vec<String>)
    ensures
        views(res@) == text_targets(domains@),
{
    let lines = split_terminator(domains.as_str(), '\n');
    dedup_strings(lines)
}


/// Every line of a block of text is a target, every target is one of its
/// lines, and no target occurs twice.
pub proof fn law_text_targets_are_its_lines(domains: Seq<char>)
    ensures
        text_targets(domains).no_duplicates(),
        forall|t: Seq<char>|
            text_targets(domains).contains(t) <==> split_terminator_seq(domains, '\n').contains(t),
{
    crate::text::lemma_dedup(split_terminator_seq(domains, '\n'));
}

/// The targets of a file are its text lines, each once; a file that cannot
/// be read has none.
pub proof fn law_file_targets_are_its_lines(content: Option<Seq<u8>>)
    ensures
        file_targets(content).no_duplicates(),
        content is None ==> file_targets(content).len() == 0,
        content matches Some(c) ==> forall|t: Seq<char>|
            file_targets(content).contains(t) <==> text_lines(c).contains(t),
{
    if let Some(c) = content {
        crate::text::lemma_dedup(text_lines(c));
    }
}


/// The encoding of a concatenation is the concatenation of the encodings.
proof fn lemma_encode_concat(a: Seq<char>, b: Seq<char>)
    ensures
        encode_utf8(a + b) == encode_utf8(a) + encode_utf8(b),
    decreases a.len(),
{
    if a.len() > 0 {
        lemma_encode_concat(a.drop_first(), b);
        assert((a + b).drop_first() == a.drop_first() + b);
        assert((a + b)[0] == a[0]);
    } else {
        assert(a + b == b);
    }
}

/// Encoding one more character appends its encoding.
proof fn lemma_encode_push(s: Seq<char>, c: char)
    ensures
        encode_utf8(s.push(c)) == encode_utf8(s) + encode_scalar(c as u32),
{
    lemma_encode_concat(s, seq![c]);
    assert(s + seq![c] == s.push(c));
    assert(seq![c].drop_first() == Seq::<char>::empty());
    assert(encode_utf8(seq![c]) == encode_scalar(c as u32) + encode_utf8(Seq::<char>::empty()));
    assert(encode_scalar(c as u32) + Seq::<u8>::empty() == encode_scalar(c as u32));
}

/// An ASCII byte occurs in the encoding of a character only as the encoding
/// of that very character, which is then one byte long.
proof fn lemma_scalar_ascii_byte(c: char, b: u8)
    requires
        b < 0x80,
        encode_scalar(c as u32).contains(b),
    ensures
        c as u32 == b as u32,
        encode_scalar(c as u32) == seq![b],
{
    let v = c as u32;
    let e = encode_scalar(v);
    let k = choose|k: int| 0 <= k < e.len() && e[k] == b;
    if has_width_1_encoding(v) {
        assert(v <= 0x7f ==> (v & 0x7f) as u8 as u32 == v) by (bit_vector);
        assert(e == seq![(v & 0x7f) as u8]);
    } else if 0x80 <= v <= 0x7FF {
        assert((0xC0 | ((v >> 6) & 0x1F) as u8) >= 0x80) by (bit_vector);
        assert((0x80 | (v & 0x3F) as u8) >= 0x80) by (bit_vector);
    } else if 0x800 <= v <= 0xFFFF && !(0xD800 <= v <= 0xDFFF) {
        assert((0xE0 | ((v >> 12) & 0x0F) as u8) >= 0x80) by (bit_vector);
        assert((0x80 | ((v >> 6) & 0x3F) as u8) >= 0x80) by (bit_vector);
        assert((0x80 | (v & 0x3F) as u8) >= 0x80) by (bit_vector);
    } else {
        assert((0xF0 | ((v >> 18) & 0x7) as u8) >= 0x80) by (bit_vector);
        assert((0x80 | ((v >> 12) & 0x3F) as u8) >= 0x80) by (bit_vector);
        assert((0x80 | ((v >> 6) & 0x3F) as u8) >= 0x80) by (bit_vector);
        assert((0x80 | (v & 0x3F) as u8) >= 0x80) by (bit_vector);
    }
}

/// An ASCII byte occurs in an encoding only where its character occurs in
/// the text.
proof fn lemma_encode_ascii_byte(s: Seq<char>, b: u8)
    requires
        b < 0x80,
        encode_utf8(s).contains(b),
    ensures
        exists|i: int| 0 <= i < s.len() && s[i] as u32 == b as u32,
    decreases s.len(),
{
    if s.len() == 0 {
        assert(encode_utf8(s) == Seq::<u8>::empty());
    } else {
        let e0 = encode_scalar(s[0] as u32);
        let rest = encode_utf8(s.drop_first());
        assert(encode_utf8(s) == e0 + rest);
        let k = choose|k: int| 0 <= k < encode_utf8(s).len() && encode_utf8(s)[k] == b;
        if k < e0.len() {
            assert(e0[k] == b);
            lemma_scalar_ascii_byte(s[0], b);
        } else {
            assert(rest[k - e0.len()] == b);
            lemma_encode_ascii_byte(s.drop_first(), b);
            let i = choose|i: int| 0 <= i < s.len() - 1 && s.drop_first()[i] as u32 == b as u32;
            assert(s[i + 1] as u32 == b as u32);
        }
    }
}

/// Splitting after appending separator-free elements extends the last
/// piece.
proof fn lemma_split_append<T>(x: Seq<T>, ys: Seq<T>, sep: T)
    requires
        !ys.contains(sep),
    ensures
        split_seq(x + ys, sep) == split_seq(x, sep).update(
            split_seq(x, sep).len() - 1,
            split_seq(x, sep).last() + ys,
        ),
    decreases ys.len(),
{
    lemma_split_nonempty(x, sep);
    let p = split_seq(x, sep);
    if ys.len() == 0 {
        assert(x + ys == x);
        assert(p.last() + ys == p.last());
        assert(p.update(p.len() - 1, p.last()) == p);
    } else {
        let yd = ys.drop_last();
        assert(!yd.contains(sep)) by {
            if yd.contains(sep) {
                let i = choose|i: int| 0 <= i < yd.len() && yd[i] == sep;
                assert(ys[i] == sep);
            }
        }
        assert(ys[ys.len() - 1] != sep);
        lemma_split_append(x, yd, sep);
        assert((x + ys).drop_last() == x + yd);
        assert((x + ys).last() == ys.last());
        let q = split_seq(x + yd, sep);
        assert(q == p.update(p.len() - 1, p.last() + yd));
        assert(q.last() == p.last() + yd);
        assert((p.last() + yd).push(ys.last()) == p.last() + ys);
        assert(q.update(q.len() - 1, q.last().push(ys.last())) == p.update(
            p.len() - 1,
            p.last() + ys,
        ));
    }
}

/// The encoded pieces of a text.
pub open spec fn encoded_pieces(pieces: Seq<Seq<char>>) -> Seq<Seq<u8>> {
    pieces.map_values(|p: Seq<char>| encode_utf8(p))
}

/// Splitting an encoding at line feeds gives the encodings of the text's
/// pieces between line feeds.
proof fn lemma_split_encode(s: Seq<char>)
    ensures
        split_seq(encode_utf8(s), 10u8) == encoded_pieces(split_seq(s, '\n')),
    decreases s.len(),
{
    lemma_split_nonempty(s, '\n');
    if s.len() == 0 {
        assert(encode_utf8(s) == Seq::<u8>::empty());
        assert(encode_utf8(Seq::<char>::empty()) == Seq::<u8>::empty());
        assert(encoded_pieces(split_seq(s, '\n')) == seq![Seq::<u8>::empty()]);
    } else {
        let t = s.drop_last();
        let c = s.last();
        assert(t.push(c) == s);
        lemma_encode_push(t, c);
        lemma_split_encode(t);
        lemma_split_nonempty(t, '\n');
        let p = split_seq(t, '\n');
        let es = encode_scalar(c as u32);
        let nl: char = '\n';
        assert(nl as u32 == 10);
        if c == '\n' {
            assert(c as u32 == 10);
            assert((10u32 & 0x7f) as u8 == 10u8) by (bit_vector);
            assert(es == seq![10u8]);
            assert(encode_utf8(s) == encode_utf8(t).push(10u8));
            assert(encode_utf8(s).drop_last() == encode_utf8(t));
            assert(encode_utf8(Seq::<char>::empty()) == Seq::<u8>::empty());
            assert(encoded_pieces(p.push(Seq::<char>::empty())) == encoded_pieces(p).push(
                Seq::<u8>::empty(),
            ));
        } else {
            assert(!es.contains(10u8)) by {
                if es.contains(10u8) {
                    lemma_scalar_ascii_byte(c, 10u8);
                    char_u32_cast(c, 10u32);
                    char_u32_cast(nl, 10u32);
                }
            }
            lemma_split_append(encode_utf8(t), es, 10u8);
            lemma_encode_push(p.last(), c);
            let n = p.len() - 1;
            assert(encoded_pieces(p.update(n, p.last().push(c))) == encoded_pieces(p).update(
                n,
                encoded_pieces(p).last() + es,
            ));
        }
    }
}

/// The elements of every piece of a split occur in what was split.
proof fn lemma_split_elements<T>(s: Seq<T>, sep: T)
    ensures
        forall|k: int, j: int|
            0 <= k < split_seq(s, sep).len() && 0 <= j < split_seq(s, sep)[k].len() ==> s.contains(
                #[trigger] split_seq(s, sep)[k][j],
            ),
    decreases s.len(),
{
    lemma_split_nonempty(s, sep);
    if s.len() > 0 {
        let t = s.drop_last();
        lemma_split_elements(t, sep);
        lemma_split_nonempty(t, sep);
        let p = split_seq(t, sep);
        assert forall|k: int, j: int|
            0 <= k < split_seq(s, sep).len() && 0 <= j < split_seq(s, sep)[k].len() implies s.contains(
            #[trigger] split_seq(s, sep)[k][j],
        ) by {
            let x = split_seq(s, sep)[k][j];
            if s.last() == sep {
                if k < p.len() {
                    assert(x == p[k][j]);
                    let i = choose|i: int| 0 <= i < t.len() && t[i] == x;
                    assert(s[i] == x);
                }
            } else if k < p.len() - 1 {
                assert(x == p[k][j]);
                let i = choose|i: int| 0 <= i < t.len() && t[i] == x;
                assert(s[i] == x);
            } else if j < p.last().len() {
                assert(x == p[k][j]);
                let i = choose|i: int| 0 <= i < t.len() && t[i] == x;
                assert(s[i] == x);
            } else {
                assert(x == s.last());
                assert(s[s.len() - 1] == x);
            }
        }
    }
}

/// The encoding of a non-empty text is non-empty.
proof fn lemma_encode_len(s: Seq<char>)
    ensures
        encode_utf8(s).len() >= s.len(),
    decreases s.len(),
{
    if s.len() > 0 {
        lemma_encode_len(s.drop_first());
        vstd::utf8::char_is_scalar(s[0]);
    }
}

/// All lines from `i` on being valid UTF-8, the text prefix reaches the end.
proof fn lemma_prefix_all_valid(lines: Seq<Seq<u8>>, i: int)
    requires
        0 <= i <= lines.len(),
        forall|k: int| 0 <= k < lines.len() ==> valid_utf8(#[trigger] lines[k]),
    ensures
        text_prefix_len(lines, i) == lines.len(),
    decreases lines.len() - i,
{
    if i < lines.len() {
        lemma_prefix_all_valid(lines, i + 1);
    }
}

/// Reading the targets of a file whose content is valid UTF-8 without
/// carriage returns gives the targets of its text: the same lines, each
/// once, in the same order.
pub proof fn law_file_targets_match_text_targets(content: Seq<u8>)
    requires
        valid_utf8(content),
        !decode_utf8(content).contains('\r'),
    ensures
        file_targets(Some(content)) == text_targets(decode_utf8(content)),
{
    let s = decode_utf8(content);
    decode_utf8_encode_utf8(content);
    assert(encode_utf8(s) == content);
    lemma_split_encode(s);
    lemma_split_nonempty(s, '\n');
    lemma_split_elements(s, '\n');
    let p = split_seq(s, '\n');
    let pt = split_terminator_seq(s, '\n');
    let pieces = split_terminator_seq(content, 10u8);
    lemma_encode_len(p.last());
    assert(encoded_pieces(p).last() == encode_utf8(p.last()));
    assert(encode_utf8(p.last()).len() == 0 <==> p.last().len() == 0) by {
        if p.last().len() == 0 {
            assert(p.last() == Seq::<char>::empty());
        }
    }
    assert(pieces == encoded_pieces(pt)) by {
        if p.last().len() == 0 {
            assert(encoded_pieces(p).drop_last() == encoded_pieces(p.drop_last()));
        }
    }
    let lines = raw_lines(content);
    assert(lines.len() == pt.len());
    assert forall|i: int| 0 <= i < lines.len() implies #[trigger] lines[i] == encode_utf8(pt[i]) by {
        let e = encode_utf8(pt[i]);
        assert(pieces[i] == e);
        if e.len() > 0 && e.last() == 13u8 {
            assert(e.contains(13u8)) by {
                assert(e[e.len() - 1] == 13u8);
            }
            lemma_encode_ascii_byte(pt[i], 13u8);
            let j = choose|j: int| 0 <= j < pt[i].len() && pt[i][j] as u32 == 13u32;
            let cr: char = '\r';
            assert(cr as u32 == 13);
            char_u32_cast(pt[i][j], 13u32);
            char_u32_cast(cr, 13u32);
            assert(pt[i][j] == p[i][j]);
            assert(s.contains(p[i][j]));
        }
    }
    assert forall|k: int| 0 <= k < lines.len() implies valid_utf8(#[trigger] lines[k]) by {
        encode_utf8_valid_utf8(pt[k]);
    }
    lemma_prefix_all_valid(lines, 0);
    assert(lines.take(lines.len() as int) == lines);
    assert forall|k: int| 0 <= k < pt.len() implies #[trigger] decode_utf8(lines[k]) == pt[k] by {
        encode_utf8_decode_utf8(pt[k]);
    }
    assert(lines.map_values(|l: Seq<u8>| decode_utf8(l)) == pt);
    assert(text_lines(content) == pt);
}


/// The content of a file whose lines are `lines`, each encoded in UTF-8 and
/// followed by the bytes `ending`.
pub open spec fn file_with_endings(lines: Seq<Seq<char>>, ending: Seq<u8>) -> Seq<u8>
    decreases lines.len(),
{
    if lines.len() == 0 {
        Seq::empty()
    } else {
        file_with_endings(lines.drop_last(), ending) + encode_utf8(lines.last()) + ending
    }
}

/// The content of a file whose every line ends in a carriage return and a
/// line feed.
pub open spec fn crlf_file(lines: Seq<Seq<char>>) -> Seq<u8> {
    file_with_endings(lines, seq![13u8, 10u8])
}

/// The content of a file whose every line ends in a line feed.
pub open spec fn lf_file(lines: Seq<Seq<char>>) -> Seq<u8> {
    file_with_endings(lines, seq![10u8])
}

/// A line holding neither a carriage return nor a line feed.
pub open spec fn plain_line(l: Seq<char>) -> bool {
    !l.contains('\r') && !l.contains('\n')
}

/// The pieces between line feeds of a file with these endings: each line's
/// encoding followed by the ending without its final line feed.
spec fn ended_pieces(lines: Seq<Seq<char>>, body: Seq<u8>) -> Seq<Seq<u8>> {
    lines.map_values(|l: Seq<char>| encode_utf8(l) + body)
}

/// An encoding holds the byte of an ASCII character only where the text
/// holds that character.
proof fn lemma_no_ascii_byte(l: Seq<char>, c: char, b: u8)
    requires
        b < 0x80,
        c as u32 == b as u32,
        !l.contains(c),
    ensures
        !encode_utf8(l).contains(b),
{
    if encode_utf8(l).contains(b) {
        lemma_encode_ascii_byte(l, b);
        let i = choose|i: int| 0 <= i < l.len() && l[i] as u32 == b as u32;
        char_u32_cast(l[i], b as u32);
        char_u32_cast(c, b as u32);
        assert(l[i] == c);
    }
}

proof fn lemma_split_file(lines: Seq<Seq<char>>, body: Seq<u8>)
    requires
        forall|i: int| 0 <= i < lines.len() ==> plain_line(#[trigger] lines[i]),
        !body.contains(10u8),
    ensures
        split_seq(file_with_endings(lines, body.push(10u8)), 10u8) == ended_pieces(lines, body).push(
            Seq::empty(),
        ),
    decreases lines.len(),
{
    let e = body.push(10u8);
    if lines.len() == 0 {
        assert(file_with_endings(lines, e) == Seq::<u8>::empty());
        assert(ended_pieces(lines, body) == Seq::<Seq<u8>>::empty());
    } else {
        let prev = lines.drop_last();
        let l = lines.last();
        assert(plain_line(lines[lines.len() - 1]));
        lemma_split_file(prev, body);
        let x = file_with_endings(prev, e);
        let y = encode_utf8(l) + body;
        let nl: char = '\n';
        assert(nl as u32 == 10);
        lemma_no_ascii_byte(l, nl, 10u8);
        assert(!y.contains(10u8)) by {
            if y.contains(10u8) {
                let k = choose|k: int| 0 <= k < y.len() && y[k] == 10u8;
                if k < encode_utf8(l).len() {
                    assert(encode_utf8(l)[k] == 10u8);
                } else {
                    assert(body[k - encode_utf8(l).len()] == 10u8);
                }
            }
        }
        let content = file_with_endings(lines, e);
        assert(content == (x + y).push(10u8));
        assert(content.drop_last() == x + y);
        lemma_split_append(x, y, 10u8);
        lemma_split_nonempty(x, 10u8);
        let q = ended_pieces(prev, body).push(Seq::<u8>::empty());
        assert(q.last() + y == y);
        assert(q.update(q.len() - 1, y) == ended_pieces(prev, body).push(y));
        assert(ended_pieces(lines, body) == ended_pieces(prev, body).push(y));
    }
}

proof fn lemma_file_lines(lines: Seq<Seq<char>>, body: Seq<u8>)
    requires
        forall|i: int| 0 <= i < lines.len() ==> plain_line(#[trigger] lines[i]),
        body == Seq::<u8>::empty() || body == seq![13u8],
    ensures
        text_lines(file_with_endings(lines, body.push(10u8))) == lines,
{
    let e = body.push(10u8);
    let content = file_with_endings(lines, e);
    assert(!body.contains(10u8)) by {
        if body.contains(10u8) {
            let k = choose|k: int| 0 <= k < body.len() && body[k] == 10u8;
        }
    }
    lemma_split_file(lines, body);
    let pieces = ended_pieces(lines, body);
    assert(pieces.push(Seq::<u8>::empty()).drop_last() == pieces);
    assert(split_terminator_seq(content, 10u8) == pieces);
    if lines.len() > 0 {
        assert(content == file_with_endings(lines.drop_last(), e) + encode_utf8(lines.last()) + e);
        assert(content.last() == 10u8);
    }
    let raw = raw_lines(content);
    assert(raw.len() == lines.len());
    let cr: char = '\r';
    assert(cr as u32 == 13);
    assert forall|i: int| 0 <= i < lines.len() implies #[trigger] raw[i] == encode_utf8(lines[i]) by {
        let enc = encode_utf8(lines[i]);
        assert(plain_line(lines[i]));
        lemma_no_ascii_byte(lines[i], cr, 13u8);
        if body.len() == 0 {
            assert(pieces[i] == enc);
            if enc.len() > 0 && enc.last() == 13u8 {
                assert(enc[enc.len() - 1] == 13u8);
                assert(enc.contains(13u8));
            }
        } else {
            assert(pieces[i] == enc + seq![13u8]);
            assert((enc + seq![13u8]).last() == 13u8);
            assert((enc + seq![13u8]).drop_last() == enc);
        }
    }
    assert forall|k: int| 0 <= k < raw.len() implies valid_utf8(#[trigger] raw[k]) by {
        encode_utf8_valid_utf8(lines[k]);
    }
    lemma_prefix_all_valid(raw, 0);
    assert(raw.take(raw.len() as int) == raw);
    assert forall|k: int| 0 <= k < lines.len() implies #[trigger] decode_utf8(raw[k]) == lines[k] by {
        encode_utf8_decode_utf8(lines[k]);
    }
    assert(raw.map_values(|l: Seq<u8>| decode_utf8(l)) == lines);
}

/// A file's targets are its lines, each once, in order of first appearance,
/// whether every line (the last one too) ends in a carriage return and line
/// feed or in a line feed alone: no target keeps a line ending.
pub proof fn law_line_endings_are_stripped(lines: Seq<Seq<char>>)
    requires
        forall|i: int| 0 <= i < lines.len() ==> plain_line(#[trigger] lines[i]),
    ensures
        file_targets(Some(crlf_file(lines))) == dedup(lines),
        file_targets(Some(lf_file(lines))) == dedup(lines),
        file_targets(Some(crlf_file(lines))) == file_targets(Some(lf_file(lines))),
        forall|t: Seq<char>|
            #[trigger] file_targets(Some(crlf_file(lines))).contains(t) ==> lines.contains(t)
                && !t.contains('\r'),
{
    assert(seq![13u8].push(10u8) == seq![13u8, 10u8]);
    assert(Seq::<u8>::empty().push(10u8) == seq![10u8]);
    lemma_file_lines(lines, seq![13u8]);
    lemma_file_lines(lines, Seq::empty());
    crate::text::lemma_dedup(lines);
    assert forall|t: Seq<char>| #[trigger] file_targets(Some(crlf_file(lines))).contains(t)
        implies lines.contains(t) && !t.contains('\r') by {
        assert(dedup(lines).contains(t));
        assert(lines.contains(t));
        let i = choose|i: int| 0 <= i < lines.len() && lines[i] == t;
        assert(plain_line(lines[i]));
    }
}

} // verus!
