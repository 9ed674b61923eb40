use vstd::prelude::*;

verus! {

/// The character of a decimal digit.
pub open spec fn digit_char(d: nat) -> char {
    if d == 0 { '0' } else if d == 1 { '1' } else if d == 2 { '2' } else if d == 3 { '3' }
    else if d == 4 { '4' } else if d == 5 { '5' } else if d == 6 { '6' } else if d == 7 { '7' }
    else if d == 8 { '8' } else { '9' }
}

/// The decimal notation of `n`, without leading zeros.
pub open spec fn decimal_of(n: nat) -> Seq<char>
    decreases n,
{
    if n < 10 {
        seq![digit_char(n)]
    } else {
        decimal_of(n / 10).push(digit_char(n % 10))
    }
}

/// Writes `n` in decimal.
pub fn decimal(n: usize) -> (r: String)
    ensures
        r@ == decimal_of(n as nat),
    decreases n,
{
    let d: usize = n % 10;
    let digits = "0123456789";
    proof {
        reveal_strlit("0123456789");
    }
    let last = digits.substring_char(d, d + 1);
    assert(last@ == seq![digit_char(d as nat)]);
    if n < 10 {
        last.to_string()
    } else {
        let mut r = decimal(n / 10);
        r.append(last);
        r
    }
}

/// `content` between an opening and a closing `tag`, each on a line of its own.
pub open spec fn wrapped(tag: Seq<char>, content: Seq<char>) -> Seq<char> {
    seq!['<'] + tag + seq!['>', '\n'] + content + seq!['\n', '<', '/'] + tag + seq!['>', '\n']
}

/// Each of `contents` wrapped in `tag`, one after the other.
pub open spec fn wrapped_all(tag: Seq<char>, contents: Seq<Seq<char>>) -> Seq<char>
    decreases contents.len(),
{
    if contents.len() == 0 {
        Seq::empty()
    } else {
        wrapped_all(tag, contents.drop_last()) + wrapped(tag, contents.last())
    }
}

/// The views of a list of strings.
pub open spec fn views(v: Seq<String>) -> Seq<Seq<char>> {
    v.map_values(|s: String| s@)
}

/// The view of an optional string.
pub open spec fn view_of_option(o: Option<String>) -> Option<Seq<char>> {
    match o {
        Some(s) => Some(s@),
        None => None,
    }
}

/// Wraps `content` in the tag `wrapper`: `<wrapper>\ncontent\n</wrapper>\n`.
pub fn wrap(content: String, wrapper: &str) -> (r: String)
    ensures
        r@ == wrapped(wrapper@, content@),
{
    proof {
        reveal_strlit("<");
        reveal_strlit(">\n");
        reveal_strlit("\n</");
    }
    let mut r = String::from_str("<");
    r.append(wrapper);
    r.append(">\n");
    r.append(content.as_str());
    r.append("\n</");
    r.append(wrapper);
    r.append(">\n");
    r
}

/// `template` with every `{}` replaced by `task`, read from left to right.
pub open spec fn filled(template: Seq<char>, task: Seq<char>) -> Seq<char>
    decreases template.len(),
{
    if template.len() < 2 {
        template
    } else if template[0] == '{' && template[1] == '}' {
        task + filled(template.subrange(2, template.len() as int), task)
    } else {
        seq![template[0]] + filled(template.subrange(1, template.len() as int), task)
    }
}

/// Puts `task` in the place of each `{}` of `template`.
pub fn fill_template(template: &str, task: &str) -> (r: String)
    ensures
        r@ == filled(template@, task@),
{
    let n = template.unicode_len();
    let ghost t = template@;
    let mut out = String::new();
    let mut start: usize = 0;
    let mut i: usize = 0;
    assert(t.subrange(0, 0) =~= Seq::<char>::empty());
    assert(t.subrange(0, n as int) =~= t);
    while i < n
        invariant
            n == t.len(),
            t == template@,
            start <= i <= n,
            out@ + t.subrange(start as int, i as int) + filled(t.subrange(i as int, n as int), task@)
                == filled(t, task@),
        decreases n - i,
    {
        let ghost rest = t.subrange(i as int, n as int);
        if i + 1 < n && template.get_char(i) == '{' && template.get_char(i + 1) == '}' {
            assert(rest.subrange(2, rest.len() as int) =~= t.subrange(i + 2, n as int));
            assert(t.subrange(start as int, i as int) + filled(rest, task@)
                =~= t.subrange(start as int, i as int) + task@ + filled(t.subrange(i + 2, n as int), task@));
            out.append(template.substring_char(start, i));
            out.append(task);
            i = i + 2;
            start = i;
            assert(t.subrange(start as int, i as int) =~= Seq::<char>::empty());
        } else {
            assert(rest.subrange(1, rest.len() as int) =~= t.subrange(i + 1, n as int));
            if i + 1 == n {
                assert(t.subrange(i + 1, n as int) =~= Seq::<char>::empty());
            }
            assert(filled(rest, task@) == seq![t[i as int]] + filled(t.subrange(i + 1, n as int), task@));
            assert(t.subrange(start as int, i as int) + seq![t[i as int]] =~= t.subrange(start as int, i + 1));
            i = i + 1;
        }
    }
    out.append(template.substring_char(start, n));
    assert(t.subrange(n as int, n as int) =~= Seq::<char>::empty());
    out
}

/// The task text: the wrapped query, the wrapped snippet if any, and the wrapped
/// contents of each attached file, separated as a caller reads them.
pub open spec fn task_text(query: Seq<char>, snippet: Option<Seq<char>>, files: Seq<Seq<char>>) -> Seq<char> {
    let clip = match snippet {
        Some(s) => wrapped(seq!['s', 'n', 'i', 'p', 'p', 'e', 't'], s),
        None => Seq::empty(),
    };
    wrapped(seq!['q', 'u', 'e', 'r', 'y'], query) + seq!['\n'] + clip + seq!['\n']
        + wrapped_all(seq!['f', 'i', 'l', 'e', '_', 'c', 'o', 'n', 't', 'e', 'n', 't', 's'], files)
}

/// Assembles the task text from a query, an optional snippet and file contents.
pub fn compose_task(query: String, snippet: Option<String>, files: &Vec<String>) -> (r: String)
    ensures
        r@ == task_text(query@, view_of_option(snippet), views(files@)),
{
    proof {
        reveal_strlit("query");
        reveal_strlit("snippet");
        reveal_strlit("file_contents");
        reveal_strlit("\n");
    }
    let mut file_text = String::new();
    let mut k: usize = 0;
    while k < files.len()
        invariant
            k <= files.len(),
            file_text@ == wrapped_all("file_contents"@, views(files@.subrange(0, k as int))),
        decreases files.len() - k,
    {
        let ghost before = views(files@.subrange(0, k as int));
        let piece = wrap(files[k].clone(), "file_contents");
        file_text.append(piece.as_str());
        proof {
            let after = views(files@.subrange(0, k + 1));
            assert(after.drop_last() =~= before);
            assert(after.last() == files@[k as int]@);
        }
        k = k + 1;
    }
    assert(files@.subrange(0, files.len() as int) =~= files@);
    let ghost snippet_view = view_of_option(snippet);
    let clip = match snippet {
        Some(s) => wrap(s, "snippet"),
        None => String::new(),
    };
    assert(clip@ == match snippet_view {
        Some(s) => wrapped("snippet"@, s),
        None => Seq::<char>::empty(),
    });
    assert("snippet"@ =~= seq!['s', 'n', 'i', 'p', 'p', 'e', 't']);
    assert("query"@ =~= seq!['q', 'u', 'e', 'r', 'y']);
    assert("file_contents"@ =~= seq!['f', 'i', 'l', 'e', '_', 'c', 'o', 'n', 't', 'e', 'n', 't', 's']);
    let mut r = wrap(query, "query");
    r.append("\n");
    r.append(clip.as_str());
    r.append("\n");
    r.append(file_text.as_str());
    r
}

} // verus!
