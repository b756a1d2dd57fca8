use vstd::prelude::*;
use vstd::string::StrSliceExecFns;
use vstd::string::StringExecFns;

verus! {

/// Longest text, in characters, that one rendered output field may carry.
pub const OUTPUT_TEXT_CAP: usize = 1000;

/// What stripping ANSI escape sequences leaves of a string: a pure
/// function of the characters alone.
pub uninterp spec fn ansi_stripped_of(s: Seq<char>) -> Seq<char>;

/// Relies on strip_ansi_escapes::strip_str: ANSI escape and control
/// sequences are removed, everything else is kept; the result depends on
/// the input characters alone.
#[verifier::external_body]
fn strip_ansi(input: &str) -> (r: String)
    ensures
        r@ == ansi_stripped_of(input@),
        input@.len() == 0 ==> r@.len() == 0,
{
    strip_ansi_escapes::strip_str(input)
}

/// `s` with a zero-width space put before every backtick, so that the
/// text cannot break out of the fenced block it is rendered in.
pub open spec fn escaped(s: Seq<char>) -> Seq<char>
    decreases s.len(),
{
    if s.len() == 0 {
        Seq::empty()
    } else if s.last() == '`' {
        escaped(s.drop_last()) + seq!['\u{200B}', '`']
    } else {
        escaped(s.drop_last()) + seq![s.last()]
    }
}

/// `s` cut to at most `cap` characters.
pub open spec fn clipped(s: Seq<char>, cap: int) -> Seq<char> {
    if s.len() <= cap {
        s
    } else {
        s.take(cap)
    }
}

fn escape_backticks(s: &str) -> (r: String)
    ensures
        r@ == escaped(s@),
{
    let n = s.unicode_len();
    let mut out = String::new();
    let mut i: usize = 0;
    proof {
        assert(s@.take(0) =~= Seq::<char>::empty());
    }
    while i < n
        invariant
            i <= n,
            n == s@.len(),
            out@ == escaped(s@.take(i as int)),
        decreases n - i,
    {
        let c = s.get_char(i);
        proof {
            assert(s@.take(i + 1).drop_last() =~= s@.take(i as int));
            assert(s@.take(i + 1).last() == s@[i as int]);
        }
        if c == '`' {
            proof {
                reveal_strlit("\u{200B}`");
                assert("\u{200B}`"@ =~= seq!['\u{200B}', '`']);
            }
            out.append("\u{200B}`");
        } else {
            let piece = s.substring_char(i, i + 1);
            proof {
                assert(piece@ =~= seq![s@[i as int]]);
            }
            out.append(piece);
        }
        i = i + 1;
    }
    proof {
        assert(s@.take(n as int) =~= s@);
    }
    out
}

/// `s` cut into consecutive chunks of `k` items, the last one shorter
/// when `s` does not divide evenly.
pub open spec fn chunks(s: Seq<String>, k: int) -> Seq<Seq<String>>
    decreases s.len(),
    when k >= 1
{
    if s.len() == 0 {
        Seq::empty()
    } else if s.len() <= k {
        seq![s]
    } else {
        seq![s.take(k)] + chunks(s.skip(k), k)
    }
}

/// Cuts a listing into pages of at most `per_page` items, in order: the
/// concatenation of the pages is exactly the listing.
pub fn paginate(items: &Vec<String>, per_page: usize) -> (pages: Vec<Vec<String>>)
    requires
        per_page >= 1,
    ensures
        pages@.map_values(|p: Vec<String>| p@) == chunks(items@, per_page as int),
{
    let n = items.len();
    let mut pages: Vec<Vec<String>> = Vec::new();
    let mut i: usize = 0;
    proof {
        assert(items@.skip(0) =~= items@);
        assert(pages@.map_values(|p: Vec<String>| p@) =~= Seq::<Seq<String>>::empty());
    }
    while i < n
        invariant
            i <= n,
            n == items@.len(),
            per_page >= 1,
            pages@.map_values(|p: Vec<String>| p@) + chunks(items@.skip(i as int), per_page as int)
                == chunks(items@, per_page as int),
        decreases n - i,
    {
        let end = if n - i <= per_page {
            n
        } else {
            i + per_page
        };
        let mut page: Vec<String> = Vec::new();
        let mut j: usize = i;
        proof {
            assert(page@ =~= items@.subrange(i as int, i as int));
        }
        while j < end
            invariant
                i <= j <= end <= n,
                n == items@.len(),
                page@ == items@.subrange(i as int, j as int),
            decreases end - j,
        {
            page.push(items[j].clone());
            proof {
                assert(items@.subrange(i as int, j + 1) =~= items@.subrange(i as int, j as int)
                    .push(items@[j as int]));
            }
            j = j + 1;
        }
        proof {
            let rest = items@.skip(i as int);
            if rest.len() <= per_page {
                assert(page@ =~= rest);
                assert(chunks(rest, per_page as int) == seq![rest]);
            } else {
                assert(page@ =~= rest.take(per_page as int));
                assert(rest.skip(per_page as int) =~= items@.skip(end as int));
            }
            assert(pages@.push(page).map_values(|p: Vec<String>| p@) =~= pages@.map_values(
                |p: Vec<String>| p@,
            ).push(page@));
            assert(pages@.push(page).map_values(|p: Vec<String>| p@) + chunks(
                items@.skip(end as int),
                per_page as int,
            ) =~= chunks(items@, per_page as int));
        }
        pages.push(page);
        i = end;
    }
    proof {
        assert(items@.skip(n as int) =~= Seq::<String>::empty());
        assert(pages@.map_values(|p: Vec<String>| p@) =~= chunks(items@, per_page as int));
    }
    pages
}

/// Greedy packing of output lines into rendering pieces: each line gets
/// its newline back; a line that would push the piece being built past
/// the cap closes it and starts the next one; an empty piece is never
/// emitted.
pub open spec fn packed(lines: Seq<Seq<char>>, cap: int, acc: Seq<char>) -> Seq<Seq<char>>
    decreases lines.len(),
{
    if lines.len() == 0 {
        if acc.len() == 0 {
            Seq::empty()
        } else {
            seq![acc]
        }
    } else {
        let with_nl = lines[0] + seq!['\n'];
        if acc.len() + lines[0].len() > cap && acc.len() > 0 {
            seq![acc] + packed(lines.skip(1), cap, with_nl)
        } else {
            packed(lines.skip(1), cap, acc + with_nl)
        }
    }
}

/// Cuts a sequence of output lines (assembly listings and the like) into
/// pieces of roughly at most `cap` characters, greedily and in order.
pub fn pack_lines(lines: &Vec<String>, cap: usize) -> (pieces: Vec<String>)
    ensures
        crate::parser::views_of(pieces@) == packed(
            crate::parser::views_of(lines@),
            cap as int,
            Seq::empty(),
        ),
{
    let n = lines.len();
    let ghost vs = crate::parser::views_of(lines@);
    let mut pieces: Vec<String> = Vec::new();
    let mut acc = String::new();
    let mut i: usize = 0;
    proof {
        assert(vs.skip(0) =~= vs);
        assert(crate::parser::views_of(pieces@) =~= Seq::<Seq<char>>::empty());
    }
    while i < n
        invariant
            i <= n,
            n == lines@.len(),
            vs == crate::parser::views_of(lines@),
            crate::parser::views_of(pieces@) + packed(vs.skip(i as int), cap as int, acc@)
                == packed(vs, cap as int, Seq::empty()),
        decreases n - i,
    {
        let line_len = lines[i].as_str().unicode_len();
        let acc_len = acc.as_str().unicode_len();
        proof {
            assert(vs.skip(i as int)[0] == lines@[i as int]@);
            assert(vs.skip(i as int).skip(1) =~= vs.skip(i + 1));
        }
        if (acc_len as u128) + (line_len as u128) > (cap as u128) && acc_len > 0 {
            proof {
                assert(crate::parser::views_of(pieces@.push(acc)) =~= crate::parser::views_of(
                    pieces@,
                ).push(acc@));
                assert(crate::parser::views_of(pieces@.push(acc)) + packed(
                    vs.skip(i + 1),
                    cap as int,
                    lines@[i as int]@ + seq!['\n'],
                ) =~= packed(vs, cap as int, Seq::empty()));
            }
            pieces.push(acc);
            acc = lines[i].clone();
            proof {
                reveal_strlit("\n");
            }
            acc.append("\n");
            proof {
                assert(acc@ =~= lines@[i as int]@ + seq!['\n']);
            }
        } else {
            proof {
                reveal_strlit("\n");
            }
            let ghost acc0 = acc@;
            acc.append(lines[i].as_str());
            acc.append("\n");
            proof {
                assert(acc@ =~= acc0 + (lines@[i as int]@ + seq!['\n']));
            }
        }
        i = i + 1;
    }
    proof {
        assert(vs.skip(n as int) =~= Seq::<Seq<char>>::empty());
    }
    if !acc.as_str().is_empty() {
        proof {
            assert(crate::parser::views_of(pieces@.push(acc)) =~= crate::parser::views_of(
                pieces@,
            ).push(acc@));
            assert(crate::parser::views_of(pieces@.push(acc)) =~= packed(
                vs,
                cap as int,
                Seq::empty(),
            ));
        }
        pieces.push(acc);
    } else {
        proof {
            assert(crate::parser::views_of(pieces@) =~= packed(vs, cap as int, Seq::empty()));
        }
    }
    pieces
}

/// Makes text from an outside process safe to render: ANSI control
/// sequences (colors and the like) are stripped, every backtick gets a
/// zero-width space in front so the surrounding fenced block stays
/// intact, and the result is cut to the output cap.
pub fn conform_external_str(input: &str) -> (r: String)
    ensures
        r@ == clipped(escaped(ansi_stripped_of(input@)), OUTPUT_TEXT_CAP as int),
{
    let stripped = strip_ansi(input);
    let esc = escape_backticks(stripped.as_str());
    let len = esc.as_str().unicode_len();
    if len > OUTPUT_TEXT_CAP {
        String::from_str(esc.as_str().substring_char(0, OUTPUT_TEXT_CAP))
    } else {
        esc
    }
}

} // verus!
