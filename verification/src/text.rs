//! Text rules: the names under which Pokémon are looked up and drawn, the
//! lines a move set is shown as, and the frames of the event stream.

use vstd::prelude::*;

verus! {

/// What `str::to_lowercase` gives back for a text (full Unicode lowercase
/// mapping, taken from the standard library).
pub uninterp spec fn lowercase(s: Seq<char>) -> Seq<char>;

/// Lowercases a text with `str::to_lowercase`.
///
/// Trusted: the result is the standard library's lowercase mapping of `s`,
/// named `lowercase`; nothing more is claimed of that mapping.
#[verifier::external_body]
fn to_lowercase(s: &str) -> (r: String)
    ensures
        r@ == lowercase(s@),
{
    s.to_lowercase()
}

/// Every space of `s` turned into a hyphen.
pub open spec fn spaces_to_hyphens(s: Seq<char>) -> Seq<char> {
    s.map_values(|c: char| if c == ' ' { '-' } else { c })
}

/// `s` with a space replaced by a hyphen everywhere, as `s.replace(' ', "-")`.
pub fn replace_spaces(s: &str) -> (r: String)
    ensures
        r@ == spaces_to_hyphens(s@),
{
    let n = s.unicode_len();
    let mut out = String::new();
    let hyphen = "-";
    proof {
        reveal_strlit("-");
    }
    let mut i: usize = 0;
    while i < n
        invariant
            n == s@.len(),
            i <= n,
            hyphen@ == seq!['-'],
            out@ == spaces_to_hyphens(s@.take(i as int)),
        decreases n - i,
    {
        let c = s.get_char(i);
        if c == ' ' {
            out.append(hyphen);
        } else {
            out.append(s.substring_char(i, i + 1));
        }
        assert(s@.take(i + 1) =~= s@.take(i as int).push(c));
        assert(spaces_to_hyphens(s@.take(i + 1)) =~= spaces_to_hyphens(s@.take(i as int)).push(
            if c == ' ' { '-' } else { c },
        ));
        i = i + 1;
    }
    assert(s@.take(n as int) =~= s@);
    out
}


/// `s` with every occurrence of `pat` removed, scanning from the left and
/// never letting two removed occurrences overlap, as `s.replace(pat, "")`.
pub open spec fn remove_all(s: Seq<char>, pat: Seq<char>) -> Seq<char>
    decreases s.len(),
{
    if pat.len() == 0 || s.len() < pat.len() {
        s
    } else if s.take(pat.len() as int) == pat {
        remove_all(s.skip(pat.len() as int), pat)
    } else {
        seq![s[0]] + remove_all(s.skip(1), pat)
    }
}

/// Whether `pat` stands in `s` at character position `i`.
fn occurs_at(s: &str, i: usize, pat: &str) -> (r: bool)
    requires
        i + pat@.len() <= s@.len(),
    ensures
        r == (s@.subrange(i as int, i + pat@.len()) == pat@),
{
    let n = s.unicode_len();
    let m = pat.unicode_len();
    let mut j: usize = 0;
    while j < m
        invariant
            m == pat@.len(),
            n == s@.len(),
            i + m <= s@.len(),
            j <= m,
            forall|k: int| 0 <= k < j ==> s@[i + k] == pat@[k],
        decreases m - j,
    {
        if s.get_char(i + j) != pat.get_char(j) {
            assert(s@.subrange(i as int, i + m)[j as int] != pat@[j as int]);
            return false;
        }
        j = j + 1;
    }
    assert(s@.subrange(i as int, i + m) =~= pat@);
    true
}

/// `s` with every occurrence of the non-empty `pat` removed, as
/// `s.replace(pat, "")`.
pub fn remove_occurrences(s: &str, pat: &str) -> (r: String)
    requires
        pat@.len() > 0,
    ensures
        r@ == remove_all(s@, pat@),
{
    let n = s.unicode_len();
    let m = pat.unicode_len();
    let mut out = String::new();
    let mut i: usize = 0;
    assert(s@.skip(0) =~= s@);
    while i < n
        invariant
            n == s@.len(),
            m == pat@.len(),
            m > 0,
            i <= n,
            out@ + remove_all(s@.skip(i as int), pat@) == remove_all(s@, pat@),
        decreases n - i,
    {
        let ghost rest = s@.skip(i as int);
        if n - i < m {
            let tail = s.substring_char(i, n);
            assert(tail@ =~= rest);
            out.append(tail);
            assert(remove_all(rest, pat@) == rest);
            assert(out@ =~= out@ + remove_all(s@.skip(n as int), pat@));
            i = n;
        } else if occurs_at(s, i, pat) {
            assert(rest.take(m as int) =~= s@.subrange(i as int, i + m));
            assert(rest.skip(m as int) =~= s@.skip(i + m));
            i = i + m;
        } else {
            assert(rest.take(m as int) =~= s@.subrange(i as int, i + m));
            assert(rest.skip(1) =~= s@.skip(i + 1));
            let ghost before = out@;
            let piece = s.substring_char(i, i + 1);
            assert(piece@ =~= seq![rest[0]]);
            out.append(piece);
            assert(out@ + remove_all(s@.skip(i + 1), pat@) =~= before + remove_all(rest, pat@));
            i = i + 1;
        }
    }
    assert(s@.skip(n as int) =~= Seq::<char>::empty());
    assert(out@ + remove_all(s@.skip(n as int), pat@) =~= out@);
    out
}


/// The part of a Pokémon's name that Smogon adds for a mega evolution.
pub open spec fn mega_marker() -> Seq<char> {
    seq!['-', 'm', 'e', 'g', 'a']
}

/// The name under which a Pokémon's sprite is served: its lowercase name
/// with hyphens for spaces.
pub open spec fn sprite_name_of(name: Seq<char>) -> Seq<char> {
    spaces_to_hyphens(lowercase(name))
}

/// The name under which a Pokémon is looked up in the strategy dex and kept
/// apart from the others in a draw: its sprite name without the mega marker.
pub open spec fn dex_name_of(name: Seq<char>) -> Seq<char> {
    remove_all(sprite_name_of(name), mega_marker())
}

/// The sprite name of `name`: lowercase, with hyphens for spaces.
pub fn sprite_name(name: &str) -> (r: String)
    ensures
        r@ == sprite_name_of(name@),
{
    let lower = to_lowercase(name);
    replace_spaces(lower.as_str())
}

/// The dex name of `name`: its sprite name with every `-mega` removed.
pub fn dex_name(name: &str) -> (r: String)
    ensures
        r@ == dex_name_of(name@),
{
    let sprite = sprite_name(name);
    let marker = "-mega";
    proof {
        reveal_strlit("-mega");
        assert(marker@ =~= mega_marker());
    }
    remove_occurrences(sprite.as_str(), marker)
}

/// The inline style of the sprite box of a Pokémon card, which shows the
/// image served under the Pokémon's sprite name.
pub fn sprite_style(name: &str) -> (r: String)
    ensures
        r@ == "background-repeat: no-repeat; background-size: contain; background-position: center center; background-image: url(\"/api/image/"@
            + sprite_name_of(name@) + "\")"@,
{
    let mut out = String::from_str(
        "background-repeat: no-repeat; background-size: contain; background-position: center center; background-image: url(\"/api/image/",
    );
    let sprite = sprite_name(name);
    out.append(sprite.as_str());
    out.append("\")");
    out
}

/// Where Smogon serves the animated sprite of the Pokémon with sprite name
/// `name`.
pub fn sprite_url(name: &str) -> (r: String)
    ensures
        r@ == "https://www.smogon.com/dex/media/sprites/xy/"@ + name@ + ".gif"@,
{
    let mut out = String::from_str("https://www.smogon.com/dex/media/sprites/xy/");
    out.append(name);
    out.append(".gif");
    out
}

/// One frame of a server-sent event stream: the event's name and its data.
pub fn sse_event(event: &str, data: &str) -> (r: String)
    ensures
        r@ == "event: "@ + event@ + "\ndata: "@ + data@ + "\n\n"@,
{
    let mut out = String::from_str("event: ");
    out.append(event);
    out.append("\ndata: ");
    out.append(data);
    out.append("\n\n");
    out
}

/// The pieces of `s` between newlines, as `s.split('\n')`: one more piece
/// than `s` has newlines, empty pieces included.
pub open spec fn lines_of(s: Seq<char>) -> Seq<Seq<char>>
    decreases s.len(),
{
    if s.len() == 0 {
        seq![Seq::<char>::empty()]
    } else {
        let before = lines_of(s.drop_last());
        if s.last() == '\n' {
            before.push(Seq::<char>::empty())
        } else {
            before.update(before.len() - 1, before.last().push(s.last()))
        }
    }
}

/// The lines of a move set's text, each shown as a paragraph of its card.
pub fn set_lines(set: &str) -> (r: Vec<String>)
    ensures
        r@.map_values(|l: String| l@) == lines_of(set@),
{
    let n = set.unicode_len();
    let mut lines: Vec<String> = Vec::new();
    let mut start: usize = 0;
    let mut i: usize = 0;
    assert(set@.take(0) =~= Seq::<char>::empty());
    assert(lines@.map_values(|l: String| l@).push(set@.subrange(0, 0)) =~= seq![Seq::<char>::empty()]);
    while i < n
        invariant
            n == set@.len(),
            start <= i <= n,
            lines@.map_values(|l: String| l@).push(set@.subrange(start as int, i as int))
                == lines_of(set@.take(i as int)),
        decreases n - i,
    {
        let ghost done = lines@.map_values(|l: String| l@);
        let c = set.get_char(i);
        assert(set@.take(i + 1).drop_last() =~= set@.take(i as int));
        assert(set@.take(i + 1).last() == c);
        if c == '\n' {
            let line = set.substring_char(start, i);
            lines.push(String::from_str(line));
            assert(lines@.map_values(|l: String| l@) =~= done.push(set@.subrange(start as int, i as int)));
            start = i + 1;
            assert(set@.subrange(start as int, i + 1) =~= Seq::<char>::empty());
            assert(lines@.map_values(|l: String| l@).push(set@.subrange(start as int, i + 1))
                =~= lines_of(set@.take(i + 1)));
        } else {
            assert(set@.subrange(start as int, i + 1) =~= set@.subrange(start as int, i as int).push(c));
            assert(lines@.map_values(|l: String| l@).push(set@.subrange(start as int, i + 1))
                =~= lines_of(set@.take(i + 1)));
        }
        i = i + 1;
    }
    let ghost done = lines@.map_values(|l: String| l@);
    let last = set.substring_char(start, n);
    lines.push(String::from_str(last));
    assert(set@.take(n as int) =~= set@);
    assert(lines@.map_values(|l: String| l@) =~= done.push(set@.subrange(start as int, n as int)));
    lines
}


/// The pieces of `lines` put back together with a newline between each two.
pub open spec fn join_lines(lines: Seq<Seq<char>>) -> Seq<char>
    decreases lines.len(),
{
    if lines.len() == 0 {
        Seq::empty()
    } else if lines.len() == 1 {
        lines[0]
    } else {
        join_lines(lines.drop_last()) + seq!['\n'] + lines.last()
    }
}

proof fn lemma_join_extend_last(lines: Seq<Seq<char>>, c: char)
    requires
        lines.len() > 0,
    ensures
        join_lines(lines.update(lines.len() - 1, lines.last().push(c))) == join_lines(lines).push(
            c,
        ),
{
    let ext = lines.update(lines.len() - 1, lines.last().push(c));
    if lines.len() > 1 {
        assert(ext.drop_last() =~= lines.drop_last());
        assert(join_lines(ext) =~= join_lines(lines).push(c));
    }
}

/// Splitting a text into lines and joining them back with newlines gives
/// the text again, and no line holds a newline.
pub proof fn law_lines_rejoin(s: Seq<char>)
    ensures
        join_lines(lines_of(s)) == s,
        lines_of(s).len() > 0,
        forall|i: int| 0 <= i < lines_of(s).len() ==> !(#[trigger] lines_of(s)[i]).contains('\n'),
    decreases s.len(),
{
    if s.len() == 0 {
        assert(join_lines(lines_of(s)) =~= s);
    } else {
        let d = s.drop_last();
        law_lines_rejoin(d);
        let before = lines_of(d);
        if s.last() == '\n' {
            assert(before.push(Seq::<char>::empty()).drop_last() =~= before);
            assert(join_lines(lines_of(s)) =~= s);
            assert forall|i: int| 0 <= i < lines_of(s).len() implies !(
            #[trigger] lines_of(s)[i]).contains('\n') by {
                if i < before.len() {
                    assert(lines_of(s)[i] == before[i]);
                }
            }
        } else {
            lemma_join_extend_last(before, s.last());
            assert(join_lines(lines_of(s)) =~= s);
            assert forall|i: int| 0 <= i < lines_of(s).len() implies !(
            #[trigger] lines_of(s)[i]).contains('\n') by {
                if i < before.len() - 1 {
                    assert(lines_of(s)[i] == before[i]);
                } else {
                    let l = lines_of(s)[i];
                    assert(l == before.last().push(s.last()));
                    if l.contains('\n') {
                        let k = choose|k: int| 0 <= k < l.len() && l[k] == '\n';
                        assert(before.last()[k] == '\n');
                        assert(before[before.len() - 1] == before.last());
                    }
                }
            }
        }
    }
}

/// A sprite name holds no space, and has as many characters as the
/// lowercase name it comes from.
pub proof fn law_sprite_names_have_no_spaces(name: Seq<char>)
    ensures
        !sprite_name_of(name).contains(' '),
        sprite_name_of(name).len() == lowercase(name).len(),
{
    let r = sprite_name_of(name);
    if r.contains(' ') {
        let k = choose|k: int| 0 <= k < r.len() && r[k] == ' ';
        assert(r[k] == (if lowercase(name)[k] == ' ' { '-' } else { lowercase(name)[k] }));
    }
}


/// No "-mega" stands anywhere in `s`.
pub open spec fn free_of_mega(s: Seq<char>) -> bool {
    forall|i: int|
        0 <= i && i + 5 <= s.len() ==> #[trigger] s.subrange(i, i + 5) != seq![
            '-',
            'm',
            'e',
            'g',
            'a',
        ]
}

/// A dex name is the sprite name with every "-mega" taken out, scanning
/// from the left without overlap.
pub proof fn law_dex_name_drops_every_mega(name: Seq<char>)
    ensures
        dex_name_of(name) == remove_all(sprite_name_of(name), seq!['-', 'm', 'e', 'g', 'a']),
{
    assert(mega_marker() =~= seq!['-', 'm', 'e', 'g', 'a']);
}

/// Removing every "-mega" from a text that ends in "-mega" and holds no
/// other gives the text before it.
pub proof fn law_trailing_mega_removed(b: Seq<char>)
    requires
        free_of_mega(b),
    ensures
        remove_all(b + seq!['-', 'm', 'e', 'g', 'a'], seq!['-', 'm', 'e', 'g', 'a']) == b,
    decreases b.len(),
{
    let pat = seq!['-', 'm', 'e', 'g', 'a'];
    let s = b + pat;
    if b.len() == 0 {
        assert(s =~= pat);
        assert(s.take(5) =~= pat);
        assert(s.skip(5) =~= Seq::<char>::empty());
        assert(remove_all(Seq::<char>::empty(), pat) == Seq::<char>::empty());
        assert(remove_all(s, pat) == remove_all(s.skip(5), pat));
    } else {
        if s.take(5) == pat {
            if b.len() >= 5 {
                assert(b.subrange(0, 0int + 5) =~= s.take(5));
                assert(false);
            } else {
                let n = b.len() as int;
                assert(s[n] == '-');
                assert(s.take(5)[n] == s[n]);
                assert(pat[1] == 'm' && pat[2] == 'e' && pat[3] == 'g' && pat[4] == 'a');
                assert(false);
            }
        }
        let rest = b.skip(1);
        assert forall|i: int| 0 <= i && i + 5 <= rest.len() implies #[trigger] rest.subrange(
            i,
            i + 5,
        ) != pat by {
            assert(rest.subrange(i, i + 5) =~= b.subrange(i + 1, i + 1 + 5));
        }
        law_trailing_mega_removed(rest);
        assert(s.skip(1) =~= rest + pat);
        assert(seq![s[0]] + rest =~= b);
        assert(s.take(5) != pat);
        assert(remove_all(s, pat) == seq![s[0]] + remove_all(s.skip(1), pat));
    }
}

/// A Pokémon whose sprite name is some name free of "-mega" followed by
/// "-mega" is looked up under that name.
pub proof fn law_mega_form_dex_name(name: Seq<char>, base: Seq<char>)
    requires
        sprite_name_of(name) == base + seq!['-', 'm', 'e', 'g', 'a'],
        free_of_mega(base),
    ensures
        dex_name_of(name) == base,
{
    law_dex_name_drops_every_mega(name);
    law_trailing_mega_removed(base);
}

} // verus!
