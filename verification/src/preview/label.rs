//! Labels that are shortened to the room that there is for them.
use vstd::prelude::*;

verus! {

/// How many of the first `n` characters are kept: those before the first one that ends
/// beyond `room`. `ends` is where each character ends.
pub open spec fn kept_chars(ends: Seq<u32>, room: u32, n: nat) -> nat
    decreases n,
{
    if n == 0 {
        0
    } else {
        let before = kept_chars(ends, room, (n - 1) as nat);
        if before == n - 1 && n <= ends.len() && ends[n - 1] <= room {
            n
        } else {
            before
        }
    }
}

/// Is this a character that no shortened text ends with?
pub open spec fn is_filler(c: char) -> bool {
    c == ' ' || c == '_'
}

/// A text without the spaces and underscores at its end.
pub open spec fn without_fillers(s: Seq<char>) -> Seq<char>
    decreases s.len(),
{
    if s.len() > 0 && is_filler(s.last()) {
        without_fillers(s.drop_last())
    } else {
        s
    }
}

/// A text that is cut off to fit into `room`, with an ellipsis behind it.
pub open spec fn shortened(text: Seq<char>, ends: Seq<u32>, room: u32) -> Seq<char> {
    without_fillers(text.take(kept_chars(ends, room, text.len()) as int)) + "…"@
}

proof fn fillers_end(s: Seq<char>)
    ensures
        without_fillers(s).is_prefix_of(s),
        forall|i: int| without_fillers(s).len() <= i < s.len() ==> is_filler(#[trigger] s[i]),
        without_fillers(s).len() > 0 ==> !is_filler(without_fillers(s).last()),
    decreases s.len(),
{
    if s.len() > 0 && is_filler(s.last()) {
        fillers_end(s.drop_last());
        assert forall|i: int| without_fillers(s).len() <= i < s.len() implies is_filler(
            #[trigger] s[i],
        ) by {
            if i < s.len() - 1 {
                assert(s.drop_last()[i] == s[i]);
            }
        }
        assert(without_fillers(s) =~= s.take(without_fillers(s).len() as int));
    }
}

proof fn kept_end(ends: Seq<u32>, room: u32, n: nat)
    ensures
        kept_chars(ends, room, n) <= n,
        kept_chars(ends, room, n) <= ends.len(),
        forall|i: int| 0 <= i < kept_chars(ends, room, n) ==> #[trigger] ends[i] <= room,
        kept_chars(ends, room, n) < n && kept_chars(ends, room, n) < ends.len()
            ==> ends[kept_chars(ends, room, n) as int] > room,
    decreases n,
{
    if n > 0 {
        kept_end(ends, room, (n - 1) as nat);
    }
}

/// A shortened text is a beginning of the text with an ellipsis behind it. Each character of the
/// beginning ends within the room, and its last one is no space and no underscore. The character
/// behind it ends beyond the room, or only spaces and underscores lie between it and one
/// that does.
pub proof fn a_shortened_text_fills_its_room(text: Seq<char>, ends: Seq<u32>, room: u32)
    requires
        ends.len() == text.len(),
    ensures
        shortened(text, ends, room).len() >= 1,
        shortened(text, ends, room).last() == '…',
        shortened(text, ends, room).drop_last().is_prefix_of(text),
        forall|i: int|
            0 <= i < shortened(text, ends, room).len() - 1 ==> #[trigger] ends[i] <= room,
        shortened(text, ends, room).len() > 1 ==> {
            let last = text[shortened(text, ends, room).len() - 2];
            last != ' ' && last != '_'
        },
        exists|stop: int|
            shortened(text, ends, room).len() - 1 <= stop <= text.len() && (stop < text.len()
                ==> #[trigger] ends[stop] > room) && forall|i: int|
                shortened(text, ends, room).len() - 1 <= i < stop ==> #[trigger] text[i] == ' '
                    || text[i] == '_',
{
    let kept = kept_chars(ends, room, text.len()) as int;
    let head = text.take(kept);
    let front = without_fillers(head);
    kept_end(ends, room, text.len());
    fillers_end(head);
    reveal_strlit("…");
    assert(shortened(text, ends, room).drop_last() =~= front);
    assert forall|i: int| front.len() <= i < kept implies #[trigger] text[i] == ' ' || text[i]
        == '_' by {
        assert(is_filler(head[i]));
    }
    assert(front.len() > 0 ==> front.last() == text[front.len() - 1]);
    assert(front.is_prefix_of(text));
    let last = ends[kept];
}

/// Does a function say how wide a text is?
pub open spec fn measures<W: Fn(String) -> u32>(
    measure: W,
    text: Seq<char>,
    width: u32,
) -> bool {
    exists|s: String| s@ == text && #[trigger] call_ensures(measure, (s,), width)
}

/// Does a function say where the characters of a text end?
pub open spec fn lays_out<E: Fn(String) -> Vec<u32>>(
    extents: E,
    text: Seq<char>,
    ends: Seq<u32>,
) -> bool {
    exists|s: String, v: Vec<u32>|
        s@ == text && v@ == ends && #[trigger] call_ensures(extents, (s,), v)
}

/// Can `r` be the text as it fits into `room`? A text that is wider is shortened, to
/// nothing where there is no room for an ellipsis.
pub open spec fn is_fitted<W: Fn(String) -> u32, E: Fn(String) -> Vec<u32>>(
    measure: W,
    extents: E,
    text: Seq<char>,
    room: u32,
    r: Seq<char>,
) -> bool {
    exists|width: u32| #[trigger]
        measures(measure, text, width) && if width <= room {
            r == text
        } else {
            exists|dots: u32| #[trigger]
                measures(measure, "…"@, dots) && if dots > room {
                    r == Seq::<char>::empty()
                } else {
                    exists|ends: Seq<u32>| #[trigger]
                        lays_out(extents, text, ends) && r == shortened(
                            text,
                            ends,
                            (room - dots) as u32,
                        )
                }
        }
}

proof fn fillers_are_dropped(s: Seq<char>, keep: int)
    requires
        0 <= keep <= s.len(),
        forall|i: int| keep <= i < s.len() ==> is_filler(s[i]),
        keep > 0 ==> !is_filler(s[keep - 1]),
    ensures
        without_fillers(s) == s.take(keep),
    decreases s.len(),
{
    if keep < s.len() {
        fillers_are_dropped(s.drop_last(), keep);
        assert(s.drop_last().take(keep) =~= s.take(keep));
    } else {
        assert(s.take(keep) =~= s);
    }
}

proof fn kept_stay(ends: Seq<u32>, room: u32, n: nat, m: nat)
    requires
        n <= m,
        kept_chars(ends, room, n) < n || n >= ends.len() || ends[n as int] > room,
        kept_chars(ends, room, n) <= n,
    ensures
        kept_chars(ends, room, m) == kept_chars(ends, room, n),
    decreases m,
{
    if n < m {
        kept_stay(ends, room, n, (m - 1) as nat);
    }
}

fn count_kept(ends: &Vec<u32>, room: u32, len: usize) -> (r: usize)
    ensures
        r == kept_chars(ends@, room, len as nat),
        r <= len,
{
    let mut i: usize = 0;
    while i < len && i < ends.len() && ends[i] <= room
        invariant
            i <= len,
            kept_chars(ends@, room, i as nat) == i,
        decreases len - i,
    {
        i += 1;
    }
    proof {
        if i < len {
            kept_stay(ends@, room, i as nat, len as nat);
        }
    }
    i
}

fn shorten(text: &str, ends: &Vec<u32>, room: u32) -> (r: String)
    ensures
        r@ == shortened(text@, ends@, room),
{
    let len: usize = text.unicode_len();
    let kept: usize = count_kept(ends, room, len);
    let ghost head = text@.take(kept as int);
    let mut keep: usize = 0;
    let mut count: usize = 0;
    for c in it: text.chars()
        invariant
            it.seq() == text@,
            len == text@.len(),
            count == it.index(),
            keep <= count,
            keep <= kept <= len,
            head == text@.take(kept as int),
            forall|i: int| keep <= i < count && i < kept ==> is_filler(#[trigger] text@[i]),
            keep > 0 ==> !is_filler(text@[keep - 1]),
    {
        if count < kept && c != ' ' && c != '_' {
            keep = count + 1;
        }
        count += 1;
    }
    proof {
        fillers_are_dropped(head, keep as int);
        assert(head.take(keep as int) =~= text@.take(keep as int));
    }
    let front: &str = text.substring_char(0, keep);
    assert(front@ =~= text@.take(keep as int));
    let mut r: String = front.to_owned();
    r.append("…");
    r
}

/// A text as it fits into `room`. `measure` says how wide a text is, `extents` where each
/// of its characters ends.
pub fn fit_label<W: Fn(String) -> u32, E: Fn(String) -> Vec<u32>>(
    text: &str,
    room: u32,
    measure: &W,
    extents: &E,
) -> (r: String)
    requires
        forall|s: String| #[trigger] call_requires(*measure, (s,)),
        forall|s: String| #[trigger] call_requires(*extents, (s,)),
    ensures
        is_fitted(*measure, *extents, text@, room, r@),
{
    let width: u32 = measure(text.to_owned());
    assert(measures(*measure, text@, width));
    if width <= room {
        return text.to_owned();
    }
    let dots: u32 = measure("…".to_owned());
    assert(measures(*measure, "…"@, dots));
    if dots > room {
        let none: String = String::new();
        assert(none@ =~= Seq::<char>::empty());
        return none;
    }
    let ends: Vec<u32> = extents(text.to_owned());
    assert(lays_out(*extents, text@, ends@));
    shorten(text, &ends, room - dots)
}

} // verus!
