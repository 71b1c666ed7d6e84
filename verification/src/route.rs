//! Which page a request path asks for. Fixed paths name the controller's
//! actions and assets; a path of three parts joined by `_`, such as
//! `/graph_10_800x600.svg`, asks for the graph of the last 10 minutes at
//! 800 by 600; anything else gets the index page.

use vstd::prelude::*;
use crate::text::{
    all_digits, chars_eq, chars_of, digits_value, is_digit, lemma_concat_free, lemma_split_join,
    lemma_split_no_sep, lemma_split_nonempty, parse_unsigned, parse_unsigned_spec, replace_all,
    replace_spec, split_chars, split_spec,
};

verus! {

/// A page of the web interface.
#[derive(Clone, Copy, Debug, PartialEq, Eq)]
pub enum Route {
    Toggle,
    State,
    Clear,
    Weather,
    Data,
    Favicon,
    Font,
    /// The graph of the last `length` minutes, `width` by `height`.
    Graph { length: usize, width: usize, height: usize },
    Index,
}

/// A `usize` as `str::parse` reads it.
pub open spec fn parse_usize_spec(s: Seq<char>) -> Option<nat> {
    parse_unsigned_spec(s, usize::MAX as nat)
}

/// The size part of a graph path's last part, `WIDTHxHEIGHT` once `.svg` is
/// taken out, split at `x`.
pub open spec fn graph_size_parts(last: Seq<char>) -> Seq<Seq<char>> {
    split_spec(replace_spec(last, ".svg"@, Seq::empty()), 'x')
}

/// The page that `url` asks for; `None` for a graph path whose size has no
/// `x`, or whose width (the first `x`-separated part of its size) or height
/// (the last part) is not a number, which the server cannot answer.
pub open spec fn route_spec(url: Seq<char>) -> Option<Route> {
    if url == "/toggle"@ {
        Some(Route::Toggle)
    } else if url == "/state"@ {
        Some(Route::State)
    } else if url == "/clear"@ {
        Some(Route::Clear)
    } else if url == "/weather"@ {
        Some(Route::Weather)
    } else if url == "/data.csv"@ {
        Some(Route::Data)
    } else if url == "/favicon.ico"@ {
        Some(Route::Favicon)
    } else if url == "/Vulf_Sans-Regular.woff2"@ {
        Some(Route::Font)
    } else {
        let parts = split_spec(url, '_');
        if parts.len() == 3 {
            let length = match parse_usize_spec(parts[1]) {
                Some(n) => n,
                None => 1,
            };
            let size = graph_size_parts(parts[2]);
            if size.len() < 2 {
                None
            } else {
                match (parse_usize_spec(size[0]), parse_usize_spec(size.last())) {
                    (Some(width), Some(height)) => Some(
                        Route::Graph {
                            length: length as usize,
                            width: width as usize,
                            height: height as usize,
                        },
                    ),
                    _ => None,
                }
            }
        } else {
            Some(Route::Index)
        }
    }
}

fn parse_usize(s: &Vec<char>) -> (res: Option<usize>)
    ensures
        res is Some <==> parse_usize_spec(s@) is Some,
        res is Some ==> res->0 as nat == parse_usize_spec(s@)->0,
{
    match parse_unsigned(s, usize::MAX as u64) {
        Some(n) => Some(n as usize),
        None => None,
    }
}

/// The page that `url` asks for, or `None` where `route_spec` has none.
pub fn route_checked(url: &str) -> (res: Option<Route>)
    ensures
        res == route_spec(url@),
{
    let chars = chars_of(url);
    if chars_eq(&chars, "/toggle") {
        return Some(Route::Toggle);
    }
    if chars_eq(&chars, "/state") {
        return Some(Route::State);
    }
    if chars_eq(&chars, "/clear") {
        return Some(Route::Clear);
    }
    if chars_eq(&chars, "/weather") {
        return Some(Route::Weather);
    }
    if chars_eq(&chars, "/data.csv") {
        return Some(Route::Data);
    }
    if chars_eq(&chars, "/favicon.ico") {
        return Some(Route::Favicon);
    }
    if chars_eq(&chars, "/Vulf_Sans-Regular.woff2") {
        return Some(Route::Font);
    }
    let parts = split_chars(&chars, '_');
    if parts.len() != 3 {
        return Some(Route::Index);
    }
    let length = match parse_usize(&parts[1]) {
        Some(n) => n,
        None => 1,
    };
    let pattern = chars_of(".svg");
    proof {
        reveal_strlit(".svg");
    }
    let nothing: Vec<char> = Vec::new();
    let size_text = replace_all(&parts[2], &pattern, &nothing);
    assert(nothing@ =~= Seq::<char>::empty());
    let size = split_chars(&size_text, 'x');
    proof {
        lemma_split_nonempty(size_text@, 'x');
    }
    let k = size.len();
    if k < 2 {
        return None;
    }
    assert(size@[0]@ == graph_size_parts(parts@[2]@)[0]);
    assert(size@[k - 1]@ == graph_size_parts(parts@[2]@).last());
    let width = parse_usize(&size[0]);
    let height = parse_usize(&size[k - 1]);
    match (width, height) {
        (Some(width), Some(height)) => Some(Route::Graph { length, width, height }),
        _ => None,
    }
}

/// The page that `url` asks for, where it names one.
pub fn route(url: &str) -> (r: Route)
    requires
        route_spec(url@) is Some,
    ensures
        Some(r) == route_spec(url@),
{
    match route_checked(url) {
        Some(r) => r,
        None => Route::Index,
    }
}


proof fn lemma_digits_free(s: Seq<char>, c: char)
    requires
        all_digits(s),
        !is_digit(c),
    ensures
        !s.contains(c),
{
    if s.contains(c) {
        let k = choose|k: int| 0 <= k < s.len() && s[k] == c;
        assert(is_digit(s[k]));
    }
}

proof fn lemma_replace_plain_prefix(a: Seq<char>, b: Seq<char>, pat: Seq<char>, rep: Seq<char>)
    requires
        pat.len() > 0,
        !a.contains(pat[0]),
    ensures
        replace_spec(a + b, pat, rep) == a + replace_spec(b, pat, rep),
    decreases a.len(),
{
    if a.len() == 0 {
        assert(a + b =~= b);
        assert(a + replace_spec(b, pat, rep) =~= replace_spec(b, pat, rep));
    } else {
        let s = a + b;
        assert(s[0] == a[0]);
        assert(a[0] != pat[0]);
        if pat.len() <= s.len() {
            assert(s.take(pat.len() as int)[0] != pat[0]);
        }
        let a1 = a.drop_first();
        assert(!a1.contains(pat[0])) by {
            if a1.contains(pat[0]) {
                let k = choose|k: int| 0 <= k < a1.len() && a1[k] == pat[0];
                assert(a[k + 1] == pat[0]);
            }
        }
        assert(s.skip(1) =~= a1 + b);
        lemma_replace_plain_prefix(a1, b, pat, rep);
        assert(seq![s[0]] + (a1 + replace_spec(b, pat, rep)) =~= a + replace_spec(b, pat, rep));
    }
}

proof fn lemma_parse_digits(s: Seq<char>)
    requires
        s.len() > 0,
        all_digits(s),
        digits_value(s) <= usize::MAX,
    ensures
        parse_usize_spec(s) == Some(digits_value(s)),
{
    assert(is_digit(s[0]));
}

/// A graph path `NAME_LENGTH_WIDTHxHEIGHT.svg`, with a name free of `_` and a
/// length, width and height in decimal, asks for the graph of that many
/// minutes at that size: the width is the number before the `x` and the
/// height the number after it.
pub proof fn lemma_graph_route(
    name: Seq<char>,
    length: Seq<char>,
    width: Seq<char>,
    height: Seq<char>,
)
    requires
        !name.contains('_'),
        length.len() > 0,
        all_digits(length),
        digits_value(length) <= usize::MAX,
        width.len() > 0,
        all_digits(width),
        digits_value(width) <= usize::MAX,
        height.len() > 0,
        all_digits(height),
        digits_value(height) <= usize::MAX,
    ensures
        route_spec(name + seq!['_'] + length + seq!['_'] + width + seq!['x'] + height + ".svg"@)
            == Some(
            Route::Graph {
                length: digits_value(length) as usize,
                width: digits_value(width) as usize,
                height: digits_value(height) as usize,
            },
        ),
{
    reveal_strlit(".svg");
    reveal_strlit("/toggle");
    reveal_strlit("/state");
    reveal_strlit("/clear");
    reveal_strlit("/weather");
    reveal_strlit("/data.csv");
    reveal_strlit("/favicon.ico");
    reveal_strlit("/Vulf_Sans-Regular.woff2");
    let svg = ".svg"@;
    assert(svg =~= seq!['.', 's', 'v', 'g']);
    let size = width + seq!['x'] + height;
    let last = size + svg;
    let url = name + seq!['_'] + length + seq!['_'] + width + seq!['x'] + height + svg;
    assert(url =~= name + seq!['_'] + (length + seq!['_'] + last));
    assert(url.last() == 'g');
    assert(url != "/toggle"@ && url != "/state"@ && url != "/clear"@ && url != "/weather"@);
    assert(url != "/data.csv"@ && url != "/favicon.ico"@ && url != "/Vulf_Sans-Regular.woff2"@);
    lemma_digits_free(length, '_');
    lemma_digits_free(width, '_');
    lemma_digits_free(height, '_');
    lemma_digits_free(width, 'x');
    lemma_digits_free(height, 'x');
    lemma_digits_free(width, '.');
    lemma_digits_free(height, '.');
    assert(!seq!['x'].contains('_')) by {
        if seq!['x'].contains('_') {
            let k = choose|k: int| 0 <= k < 1 && seq!['x'][k] == '_';
        }
    }
    assert(!seq!['x'].contains('.')) by {
        if seq!['x'].contains('.') {
            let k = choose|k: int| 0 <= k < 1 && seq!['x'][k] == '.';
        }
    }
    assert(!svg.contains('_')) by {
        if svg.contains('_') {
            let k = choose|k: int| 0 <= k < svg.len() && svg[k] == '_';
        }
    }
    lemma_concat_free(width, seq!['x'], '_');
    lemma_concat_free(width + seq!['x'], height, '_');
    lemma_concat_free(size, svg, '_');
    lemma_concat_free(width, seq!['x'], '.');
    lemma_concat_free(width + seq!['x'], height, '.');
    lemma_split_no_sep(name, '_');
    lemma_split_no_sep(length, '_');
    lemma_split_no_sep(last, '_');
    lemma_split_join(length, last, '_');
    lemma_split_join(name, length + seq!['_'] + last, '_');
    let parts = split_spec(url, '_');
    assert(parts =~= seq![name, length, last]);
    lemma_replace_plain_prefix(size, svg, svg, Seq::empty());
    assert(svg.take(4) =~= svg);
    assert(svg.skip(4) =~= Seq::<char>::empty());
    assert(replace_spec(Seq::<char>::empty(), svg, Seq::empty()) =~= Seq::<char>::empty());
    assert(svg.len() == 4);
    assert(replace_spec(svg, svg, Seq::empty()) == Seq::<char>::empty() + replace_spec(
        svg.skip(4),
        svg,
        Seq::empty(),
    ));
    assert(replace_spec(svg, svg, Seq::empty()) =~= Seq::<char>::empty());
    assert(replace_spec(last, ".svg"@, Seq::empty()) =~= size);
    lemma_split_no_sep(width, 'x');
    lemma_split_no_sep(height, 'x');
    lemma_split_join(width, height, 'x');
    assert(graph_size_parts(last) =~= seq![width, height]);
    lemma_parse_digits(length);
    lemma_parse_digits(width);
    lemma_parse_digits(height);
}

} // verus!
