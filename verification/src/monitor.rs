//! Monitors named by their resolution, `WIDTHxHEIGHT`: the help text that
//! lists them, the default choice, and the choice that a name makes.

use crate::text::{
    decimal, decimal_string, decimal_value, is_digit_char, lemma_decimal_digits,
    lemma_decimal_injective,
};
use vstd::prelude::*;
use vstd::string::StringExecFns;

verus! {

/// The name of a monitor of `w` x `h` pixels, such as `1920x1080`.
pub open spec fn resolution_text(w: nat, h: nat) -> Seq<char> {
    decimal(w) + seq!['x'] + decimal(h)
}

/// One line `WIDTHxHEIGHT` and a line break for each monitor, in order.
pub open spec fn listing_lines(sizes: Seq<(usize, usize)>) -> Seq<char>
    decreases sizes.len(),
{
    if sizes.len() == 0 {
        Seq::empty()
    } else {
        listing_lines(sizes.drop_last()) + resolution_text(
            sizes.last().0 as nat,
            sizes.last().1 as nat,
        ) + seq!['\n']
    }
}

/// The help text on the monitors: `Monitors: `, a line break, one line per
/// monitor, all but the last character.
pub open spec fn monitors_listing(sizes: Seq<(usize, usize)>) -> Seq<char> {
    ("Monitors: \n"@ + listing_lines(sizes)).drop_last()
}

/// The name of a monitor of `w` x `h` pixels.
pub fn resolution_string(w: usize, h: usize) -> (s: String)
    ensures
        s@ == resolution_text(w as nat, h as nat),
{
    let mut s = decimal_string(w);
    proof {
        reveal_strlit("x");
    }
    s.append("x");
    let height = decimal_string(h);
    s.append(height.as_str());
    assert(s@ =~= resolution_text(w as nat, h as nat));
    s
}

/// The help text that lists the monitors of the given sizes.
pub fn list_monitors(sizes: &[(usize, usize)]) -> (s: String)
    ensures
        s@ == monitors_listing(sizes@),
{
    proof {
        reveal_strlit("Monitors: ");
        reveal_strlit("Monitors: \n");
        reveal_strlit("\n");
    }
    let mut s = "Monitors: ".to_owned();
    let n = sizes.len();
    let mut i: usize = 0;
    assert(sizes@.take(0) =~= Seq::<(usize, usize)>::empty());
    assert(s@ =~= ("Monitors: \n"@ + listing_lines(sizes@.take(0))).drop_last());
    while i < n
        invariant
            n == sizes@.len(),
            i <= n,
            "Monitors: \n"@ == seq!['M', 'o', 'n', 'i', 't', 'o', 'r', 's', ':', ' ', '\n'],
            "\n"@ == seq!['\n'],
            s@ == ("Monitors: \n"@ + listing_lines(sizes@.take(i as int))).drop_last(),
        decreases n - i,
    {
        let (w, h) = sizes[i];
        let line = resolution_string(w, h);
        let ghost before = "Monitors: \n"@ + listing_lines(sizes@.take(i as int));
        proof {
            let t = sizes@.take(i + 1);
            assert(t.drop_last() =~= sizes@.take(i as int));
            assert(t.last() == (w, h));
            let lines = listing_lines(sizes@.take(i as int));
            if lines.len() > 0 {
                assert(lines.last() == '\n');
            }
            assert(before.last() == '\n');
            assert(before.drop_last() + seq!['\n'] =~= before);
        }
        s.append("\n");
        s.append(line.as_str());
        i = i + 1;
        assert(s@ =~= ("Monitors: \n"@ + listing_lines(sizes@.take(i as int))).drop_last());
    }
    assert(sizes@.take(n as int) =~= sizes@);
    s
}

/// The name of the first monitor, the one chosen when none is named.
pub fn first_monitor(sizes: &[(usize, usize)]) -> (s: String)
    requires
        sizes@.len() > 0,
    ensures
        s@ == resolution_text(sizes@[0].0 as nat, sizes@[0].1 as nat),
{
    let (w, h) = sizes[0];
    resolution_string(w, h)
}

/// The monitor that the name `wanted` picks: the last one whose name it is.
pub fn select_monitor(sizes: &[(usize, usize)], wanted: &String) -> (picked: Option<usize>)
    ensures
        match picked {
            Some(i) => {
                &&& i < sizes@.len()
                &&& resolution_text(sizes@[i as int].0 as nat, sizes@[i as int].1 as nat)
                    == wanted@
                &&& forall|j: int|
                    i < j < sizes@.len() ==> resolution_text(
                        #[trigger] sizes@[j].0 as nat,
                        sizes@[j].1 as nat,
                    ) != wanted@
            },
            None => forall|j: int|
                0 <= j < sizes@.len() ==> resolution_text(
                    #[trigger] sizes@[j].0 as nat,
                    sizes@[j].1 as nat,
                ) != wanted@,
        },
{
    let n = sizes.len();
    let mut picked: Option<usize> = None;
    let mut i: usize = 0;
    while i < n
        invariant
            n == sizes@.len(),
            i <= n,
            match picked {
                Some(p) => {
                    &&& p < i
                    &&& resolution_text(sizes@[p as int].0 as nat, sizes@[p as int].1 as nat)
                        == wanted@
                    &&& forall|j: int|
                        p < j < i ==> resolution_text(
                            #[trigger] sizes@[j].0 as nat,
                            sizes@[j].1 as nat,
                        ) != wanted@
                },
                None => forall|j: int|
                    0 <= j < i ==> resolution_text(
                        #[trigger] sizes@[j].0 as nat,
                        sizes@[j].1 as nat,
                    ) != wanted@,
            },
        decreases n - i,
    {
        let (w, h) = sizes[i];
        let name = resolution_string(w, h);
        if name == *wanted {
            picked = Some(i);
        }
        i = i + 1;
    }
    picked
}

/// With no monitor the listing is the header `Monitors: ` alone.
pub proof fn law_listing_empty()
    ensures
        monitors_listing(Seq::empty()) == "Monitors: "@,
{
    reveal_strlit("Monitors: ");
    reveal_strlit("Monitors: \n");
    assert(monitors_listing(Seq::empty()) =~= "Monitors: "@);
}

/// Each further monitor adds a line break and its name, width first, the
/// very name that `select_monitor` matches it by.
pub proof fn law_listing_push(sizes: Seq<(usize, usize)>, m: (usize, usize))
    ensures
        monitors_listing(sizes.push(m)) == monitors_listing(sizes) + seq!['\n']
            + resolution_text(m.0 as nat, m.1 as nat),
{
    reveal_strlit("Monitors: \n");
    let header = "Monitors: \n"@;
    let lines = listing_lines(sizes);
    assert(sizes.push(m).drop_last() =~= sizes);
    assert(listing_lines(sizes.push(m)) == lines + resolution_text(m.0 as nat, m.1 as nat)
        + seq!['\n']);
    let before = header + lines;
    if sizes.len() > 0 {
        assert(lines.last() == '\n');
    }
    assert(before.last() == '\n');
    assert(before.drop_last() + seq!['\n'] =~= before);
    assert(monitors_listing(sizes.push(m)) =~= monitors_listing(sizes) + seq!['\n']
        + resolution_text(m.0 as nat, m.1 as nat));
}

/// A monitor's name is its width in decimal, an `x`, and its height in
/// decimal, the two numbers reading back as the width and the height.
pub proof fn law_resolution_text_reads_back(w: nat, h: nat)
    ensures
        ({
            let t = resolution_text(w, h);
            let i = decimal(w).len() as int;
            &&& 0 < i < t.len()
            &&& t[i] == 'x'
            &&& forall|j: int| 0 <= j < t.len() && j != i ==> is_digit_char(#[trigger] t[j])
            &&& decimal_value(t.subrange(0, i)) == w
            &&& decimal_value(t.subrange(i + 1, t.len() as int)) == h
        }),
{
    let t = resolution_text(w, h);
    let i = decimal(w).len() as int;
    lemma_decimal_digits(w);
    lemma_decimal_digits(h);
    assert(t.subrange(0, i) =~= decimal(w));
    assert(t.subrange(i + 1, t.len() as int) =~= decimal(h));
    assert forall|j: int| 0 <= j < t.len() && j != i implies is_digit_char(#[trigger] t[j]) by {
        if j < i {
            assert(t[j] == decimal(w)[j]);
        } else {
            assert(t[j] == decimal(h)[j - i - 1]);
        }
    }
}

/// A monitor's name gives its resolution: two resolutions have the same
/// name only when they are equal.
pub proof fn law_resolution_names_unambiguous(w1: nat, h1: nat, w2: nat, h2: nat)
    ensures
        resolution_text(w1, h1) == resolution_text(w2, h2) ==> w1 == w2 && h1 == h2,
{
    if resolution_text(w1, h1) == resolution_text(w2, h2) {
        let t = resolution_text(w1, h1);
        let a = decimal(w1);
        let c = decimal(w2);
        lemma_decimal_digits(w1);
        lemma_decimal_digits(w2);
        lemma_decimal_digits(h1);
        lemma_decimal_digits(h2);
        assert(!is_digit_char('x'));
        if a.len() < c.len() {
            assert(t[a.len() as int] == 'x');
            assert(t[a.len() as int] == c[a.len() as int]);
        } else if c.len() < a.len() {
            assert(t[c.len() as int] == 'x');
            assert(t[c.len() as int] == a[c.len() as int]);
        }
        assert(a =~= t.subrange(0, a.len() as int));
        assert(c =~= t.subrange(0, c.len() as int));
        assert(decimal(h1) =~= t.subrange(a.len() as int + 1, t.len() as int));
        assert(decimal(h2) =~= t.subrange(c.len() as int + 1, t.len() as int));
        lemma_decimal_injective(w1, w2);
        lemma_decimal_injective(h1, h2);
    }
}

/// Whether the desktop runs a Wayland session: it does unless no Wayland
/// connection can be made and an X11 server answers.
pub fn wayland_session(wayland_connects: bool, x11_running: bool) -> (wayland: bool)
    ensures
        wayland == (wayland_connects || !x11_running),
{
    wayland_connects || !x11_running
}

} // verus!
