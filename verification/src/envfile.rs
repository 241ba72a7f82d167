//! Finding the Cloudflare API token in `.env` files.
use vstd::prelude::*;

use crate::ipv4::{lemma_index_of_prefix, lemma_split_prefix};
use crate::text::{lemma_trim_first_after_ws, lemma_trim_is_slice, is_ws, lemma_trim_no_ws_ends, strip_end_char, strip_start_char, find_char_from, index_of, lemma_split_step, split_on, str_equal, trim, trim_matches,
    trim_matches_str, trim_str};

verus! {

/// The key under which the API token is stored.
pub open spec fn token_key() -> Seq<char> {
    "CLOUDFLARE_API_TOKEN"@
}

/// The token that one line of a `.env` file provides: the line, trimmed, is
/// neither empty nor a `#` comment, it holds an `=`, the text before the first
/// `=` is the key once trimmed, and the text after it, trimmed and stripped of
/// surrounding `"` and then `'` quotes, is not empty.
pub open spec fn line_token(line: Seq<char>) -> Option<Seq<char>> {
    let t = trim(line);
    if t.len() == 0 || t[0] == '#' {
        None
    } else {
        let i = index_of(t, '=');
        if i < t.len() && trim(t.take(i as int)) == token_key() {
            let tok = trim_matches(trim_matches(trim(t.skip(i as int + 1)), '"'), '\'');
            if tok.len() > 0 {
                Some(tok)
            } else {
                None
            }
        } else {
            None
        }
    }
}

/// The token of the first line that provides one.
pub open spec fn first_line_token(lines: Seq<Seq<char>>) -> Option<Seq<char>>
    decreases lines.len(),
{
    if lines.len() == 0 {
        None
    } else if line_token(lines[0]) is Some {
        line_token(lines[0])
    } else {
        first_line_token(lines.drop_first())
    }
}

/// The token that the contents of a `.env` file provide, reading its lines in order.
pub open spec fn content_token(content: Seq<char>) -> Option<Seq<char>> {
    first_line_token(split_on(content, '\n'))
}

/// The first file, in the order given, whose contents provide a token, with
/// that token; a file that is absent or unreadable (`None`) provides none.
pub open spec fn first_file_token(files: Seq<Option<Seq<char>>>) -> Option<(int, Seq<char>)>
    decreases files.len(),
{
    if files.len() == 0 {
        None
    } else {
        match first_file_token(files.drop_last()) {
            Some(found) => Some(found),
            None => match files.last() {
                Some(c) => match content_token(c) {
                    Some(t) => Some(((files.len() - 1) as int, t)),
                    None => None,
                },
                None => None,
            },
        }
    }
}

/// The contents of a `.env` file are read line by line, lines ending at `\n`:
/// a single line provides what that line provides, and the first line of
/// longer contents provides the token when it has one, else the token comes
/// from the lines after it.
pub proof fn lemma_lines_in_order(line: Seq<char>, rest: Seq<char>)
    requires
        forall|j: int| 0 <= j < line.len() ==> line[j] != '\n',
    ensures
        content_token(line) == line_token(line),
        content_token(line + seq!['\n'] + rest) == if line_token(line) is Some {
            line_token(line)
        } else {
            content_token(rest)
        },
{
    lemma_split_prefix(line, rest, '\n');
    let p = seq![line] + split_on(rest, '\n');
    assert(p[0] == line);
    assert(p.drop_first() =~= split_on(rest, '\n'));
    let q = seq![line];
    assert(q.drop_first() =~= Seq::<Seq<char>>::empty());
    assert(first_line_token(Seq::<Seq<char>>::empty()) is None);
}

/// A line that sets the key to a value without surrounding whitespace or
/// quotes provides that value.
pub proof fn lemma_plain_assignment(t: Seq<char>)
    requires
        t.len() > 0,
        !is_ws(t[0]),
        !is_ws(t.last()),
        t[0] != '"' && t[0] != '\'',
        t.last() != '"' && t.last() != '\'',
    ensures
        line_token("CLOUDFLARE_API_TOKEN="@ + t) == Some(t),
{
    reveal_strlit("CLOUDFLARE_API_TOKEN=");
    reveal_strlit("CLOUDFLARE_API_TOKEN");
    let key = token_key();
    assert(key =~= seq![
        'C', 'L', 'O', 'U', 'D', 'F', 'L', 'A', 'R', 'E', '_', 'A', 'P', 'I', '_', 'T', 'O', 'K',
        'E', 'N',
    ]);
    assert("CLOUDFLARE_API_TOKEN="@ =~= key + seq!['=']);
    let line = key + seq!['='] + t;
    assert("CLOUDFLARE_API_TOKEN="@ + t =~= line);
    assert(line[0] == 'C');
    assert(line.last() == t.last());
    lemma_trim_no_ws_ends(line);
    lemma_index_of_prefix(key, t, '=');
    assert(line.take(key.len() as int) =~= key);
    lemma_trim_no_ws_ends(key);
    assert(line.skip(key.len() as int + 1) =~= t);
    lemma_trim_no_ws_ends(t);
    assert(strip_start_char(t, '"') == t);
    assert(strip_end_char(t, '"') == t);
    assert(strip_start_char(t, '\'') == t);
    assert(strip_end_char(t, '\'') == t);
}

/// A line that sets the key to a double-quoted or single-quoted value
/// without surrounding whitespace or quotes inside the quotes provides the
/// value without its quotes.
pub proof fn lemma_quoted_assignment(t: Seq<char>, q: char)
    requires
        q == '"' || q == '\'',
        t.len() > 0,
        !is_ws(t[0]),
        !is_ws(t.last()),
        t[0] != '"' && t[0] != '\'',
        t.last() != '"' && t.last() != '\'',
    ensures
        line_token("CLOUDFLARE_API_TOKEN="@ + seq![q] + t + seq![q]) == Some(t),
{
    reveal_strlit("CLOUDFLARE_API_TOKEN=");
    reveal_strlit("CLOUDFLARE_API_TOKEN");
    let key = token_key();
    assert(key =~= seq![
        'C', 'L', 'O', 'U', 'D', 'F', 'L', 'A', 'R', 'E', '_', 'A', 'P', 'I', '_', 'T', 'O', 'K',
        'E', 'N',
    ]);
    assert("CLOUDFLARE_API_TOKEN="@ =~= key + seq!['=']);
    let v = seq![q] + t + seq![q];
    let line = key + seq!['='] + v;
    assert("CLOUDFLARE_API_TOKEN="@ + seq![q] + t + seq![q] =~= line);
    assert(line[0] == 'C');
    assert(line.last() == q);
    lemma_trim_no_ws_ends(line);
    lemma_index_of_prefix(key, v, '=');
    assert(line.take(key.len() as int) =~= key);
    lemma_trim_no_ws_ends(key);
    assert(line.skip(key.len() as int + 1) =~= v);
    assert(v[0] == q && v.last() == q);
    lemma_trim_no_ws_ends(v);
    assert(v.drop_first() =~= t + seq![q]);
    assert((t + seq![q])[0] == t[0]);
    assert((t + seq![q]).drop_last() =~= t);
    if q == '"' {
        assert(strip_start_char(v, '"') == strip_start_char(v.drop_first(), '"'));
        assert(strip_start_char(t + seq![q], '"') == t + seq![q]);
        assert(strip_end_char(t + seq![q], '"') == strip_end_char(t, '"'));
        assert(strip_end_char(t, '"') == t);
        assert(strip_start_char(t, '\'') == t);
        assert(strip_end_char(t, '\'') == t);
    } else {
        assert(strip_start_char(v, '"') == v);
        assert(strip_end_char(v, '"') == v);
        assert(strip_start_char(v, '\'') == strip_start_char(v.drop_first(), '\''));
        assert(strip_start_char(t + seq![q], '\'') == t + seq![q]);
        assert(strip_end_char(t + seq![q], '\'') == strip_end_char(t, '\''));
        assert(strip_end_char(t, '\'') == t);
    }
}

/// A line whose first non-blank character is `#` is a comment and provides
/// no token; nor does a line without `=`.
pub proof fn lemma_comments_and_bare_lines(w: Seq<char>, rest: Seq<char>, line: Seq<char>)
    requires
        forall|i: int| 0 <= i < w.len() ==> is_ws(#[trigger] w[i]),
        forall|j: int| 0 <= j < line.len() ==> line[j] != '=',
    ensures
        line_token(w + seq!['#'] + rest) is None,
        line_token(line) is None,
{
    lemma_trim_first_after_ws(w, seq!['#'] + rest);
    assert(w + seq!['#'] + rest =~= w + (seq!['#'] + rest));
    let t = trim(line);
    lemma_trim_is_slice(line);
    if t.len() > 0 {
        lemma_index_of_prefix(t, Seq::empty(), '=');
        assert forall|j: int| 0 <= j < t.len() implies t[j] != '=' by {
            let k = choose|k: int| 0 <= k <= line.len() - t.len() && t =~= #[trigger] line.subrange(k, k + t.len());
            assert(t[j] == line[k + j]);
        }
        lemma_index_of_prefix(t, Seq::empty(), '=');
    }
}

/// The token that one line of a `.env` file provides, if any.
pub fn token_from_line(line: &str) -> (r: Option<String>)
    ensures
        r.deep_view() == line_token(line@),
{
    let t = trim_str(line);
    let n = t.unicode_len();
    if n == 0 || t.get_char(0) == '#' {
        return None;
    }
    let i = find_char_from(t, 0, '=');
    assert(t@.subrange(0, n as int) =~= t@);
    if i >= n {
        return None;
    }
    let key = trim_str(t.substring_char(0, i));
    assert(t@.subrange(0, i as int) =~= t@.take(i as int));
    if !str_equal(key, "CLOUDFLARE_API_TOKEN") {
        return None;
    }
    let value = t.substring_char(i + 1, n);
    assert(t@.subrange(i + 1, n as int) =~= t@.skip(i + 1));
    let tok = trim_matches_str(trim_matches_str(trim_str(value), '"'), '\'');
    if tok.unicode_len() == 0 {
        return None;
    }
    Some(String::from_str(tok))
}

/// The token that the contents of a `.env` file provide, if any: the first
/// line, in order, that provides one.
pub fn token_from_env_content(content: &str) -> (r: Option<String>)
    ensures
        r.deep_view() == content_token(content@),
{
    let n = content.unicode_len();
    let mut pos: usize = 0;
    assert(content@.subrange(0, n as int) =~= content@);
    loop
        invariant
            pos <= n,
            n == content@.len(),
            content_token(content@) == first_line_token(
                split_on(content@.subrange(pos as int, n as int), '\n'),
            ),
        decreases n - pos,
    {
        let i = find_char_from(content, pos, '\n');
        proof {
            lemma_split_step(content@, pos as int, i as int, '\n');
        }
        let line = content.substring_char(pos, i);
        let found = token_from_line(line);
        proof {
            let lines = split_on(content@.subrange(pos as int, n as int), '\n');
            assert(lines[0] == line@);
            if i < n {
                assert(lines.drop_first() =~= split_on(content@.subrange(i + 1, n as int), '\n'));
            } else {
                assert(lines.drop_first() =~= Seq::<Seq<char>>::empty());
                assert(first_line_token(Seq::<Seq<char>>::empty()) is None);
            }
        }
        if found.is_some() {
            return found;
        }
        if i == n {
            return None;
        }
        pos = i + 1;
    }
}

/// Looks for the API token in the contents of the candidate `.env` files, in
/// order of precedence (`None` for a file that is absent or unreadable), and
/// returns the position of the file that provided it with the token.
pub fn find_api_token(files: &Vec<Option<String>>) -> (r: Option<(usize, String)>)
    ensures
        match r {
            Some((i, t)) => first_file_token(files.deep_view()) == Some((i as int, t@)),
            None => first_file_token(files.deep_view()) is None,
        },
{
    let n = files.len();
    let mut k: usize = 0;
    assert(files.deep_view().take(0) =~= Seq::<Option<Seq<char>>>::empty());
    while k < n
        invariant
            k <= n,
            n == files.len(),
            first_file_token(files.deep_view().take(k as int)) is None,
        decreases n - k,
    {
        let found = match &files[k] {
            Some(c) => token_from_env_content(c.as_str()),
            None => None,
        };
        proof {
            let fs = files.deep_view().take(k + 1);
            assert(fs.drop_last() =~= files.deep_view().take(k as int));
            assert(fs.last() == files[k as int].deep_view());
        }
        match found {
            Some(t) => {
                proof {
                    let fs = files.deep_view().take(k + 1);
                    assert(first_file_token(fs) == Some((k as int, t@)));
                    lemma_first_file_token_extend(files.deep_view(), k as int + 1);
                }
                return Some((k, t));
            },
            None => {},
        }
        k = k + 1;
    }
    assert(files.deep_view().take(n as int) =~= files.deep_view());
    None
}

proof fn lemma_no_token_prefix(files: Seq<Option<Seq<char>>>, k: int)
    requires
        0 <= k <= files.len(),
        forall|j: int|
            0 <= j < k ==> (#[trigger] files[j] is None || content_token(files[j]->0) is None),
    ensures
        first_file_token(files.take(k)) is None,
    decreases k,
{
    if k > 0 {
        let fs = files.take(k);
        assert(fs.drop_last() =~= files.take(k - 1));
        assert(fs.last() == files[k - 1]);
        lemma_no_token_prefix(files, k - 1);
    }
}

proof fn lemma_found_token_sound(files: Seq<Option<Seq<char>>>)
    ensures
        first_file_token(files) matches Some((i, t)) ==> 0 <= i < files.len() && files[i] is Some
            && content_token(files[i]->0) == Some(t) && forall|j: int|
            0 <= j < i ==> (#[trigger] files[j] is None || content_token(files[j]->0) is None),
    decreases files.len(),
{
    if files.len() > 0 {
        let dl = files.drop_last();
        lemma_found_token_sound(dl);
        if first_file_token(dl) is None {
            if first_file_token(files) is Some {
                assert forall|j: int| 0 <= j < files.len() - 1 implies (#[trigger] files[j] is None
                    || content_token(files[j]->0) is None) by {
                    assert(files[j] == dl[j]);
                    if dl[j] is Some && content_token(dl[j]->0) is Some {
                        lemma_token_in_prefix_found(dl, j);
                    }
                }
            }
        } else {
            assert forall|j: int| 0 <= j < dl.len() implies files[j] == dl[j] by {}
        }
    }
}

proof fn lemma_token_in_prefix_found(files: Seq<Option<Seq<char>>>, j: int)
    requires
        0 <= j < files.len(),
        files[j] matches Some(c) && content_token(c) is Some,
    ensures
        first_file_token(files) is Some,
    decreases files.len(),
{
    if j < files.len() - 1 {
        assert(files.drop_last()[j] == files[j]);
        lemma_token_in_prefix_found(files.drop_last(), j);
    }
}

/// The `.env` files are consulted in order of precedence: the token comes
/// from the first file, in order, whose contents provide one, and there is
/// none only when no file provides one.
pub proof fn lemma_file_precedence(files: Seq<Option<Seq<char>>>, i: int, t: Seq<char>)
    ensures
        (0 <= i < files.len() && files[i] is Some && content_token(files[i]->0) == Some(t)
            && forall|j: int|
            0 <= j < i ==> (#[trigger] files[j] is None || content_token(files[j]->0) is None))
            ==> first_file_token(files) == Some((i, t)),
        (forall|j: int|
            0 <= j < files.len() ==> (#[trigger] files[j] is None || content_token(files[j]->0)
                is None)) ==> first_file_token(files) is None,
        first_file_token(files) matches Some((k, u)) ==> 0 <= k < files.len() && files[k] is Some
            && content_token(files[k]->0) == Some(u) && forall|j: int|
            0 <= j < k ==> (#[trigger] files[j] is None || content_token(files[j]->0) is None),
{
    lemma_found_token_sound(files);
    if 0 <= i < files.len() && files[i] is Some && content_token(files[i]->0) == Some(t)
        && forall|j: int|
        0 <= j < i ==> (#[trigger] files[j] is None || content_token(files[j]->0) is None) {
        lemma_no_token_prefix(files, i);
        let fs = files.take(i + 1);
        assert(fs.drop_last() =~= files.take(i));
        assert(fs.last() == files[i]);
        lemma_first_file_token_extend(files, i + 1);
    }
    if forall|j: int|
        0 <= j < files.len() ==> (#[trigger] files[j] is None || content_token(files[j]->0)
            is None) {
        lemma_no_token_prefix(files, files.len() as int);
        assert(files.take(files.len() as int) =~= files);
    }
}

/// A token found among the first `k` files is the token found among all of them.
proof fn lemma_first_file_token_extend(files: Seq<Option<Seq<char>>>, k: int)
    requires
        0 <= k <= files.len(),
        first_file_token(files.take(k)) is Some,
    ensures
        first_file_token(files) == first_file_token(files.take(k)),
    decreases files.len() - k,
{
    if k < files.len() {
        let fs = files.take(k + 1);
        assert(fs.drop_last() =~= files.take(k));
        lemma_first_file_token_extend(files, k + 1);
    } else {
        assert(files.take(k) =~= files);
    }
}

} // verus!
