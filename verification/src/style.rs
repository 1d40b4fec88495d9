//! ANSI styling of terminal text.

use vstd::prelude::*;

verus! {

/// The escape sequence that ends every styled span.
pub open spec fn reset_code() -> Seq<char> {
    seq!['\x1b', '[', '0', 'm']
}

pub open spec fn danger_code() -> Seq<char> {
    seq!['\x1b', '[', '3', '1', 'm', '\x1b', '[', '1', 'm']
}

pub open spec fn category_code() -> Seq<char> {
    seq!['\x1b', '[', '3', '6', 'm']
}

pub open spec fn dim_code() -> Seq<char> {
    seq!['\x1b', '[', '2', 'm']
}

pub open spec fn header_code() -> Seq<char> {
    seq!['\x1b', '[', '1', 'm']
}

/// `text` between the escape sequence `code` and the reset sequence.
pub open spec fn styled(code: Seq<char>, text: Seq<char>) -> Seq<char> {
    code + text + reset_code()
}

/// Bold red.
pub fn style_danger(text: &str) -> (s: String)
    ensures
        s@ == styled(danger_code(), text@),
{
    let mut out = String::new();
    out.append("\x1b[31m\x1b[1m");
    out.append(text);
    out.append("\x1b[0m");
    proof {
        reveal_strlit("\x1b[31m\x1b[1m");
        reveal_strlit("\x1b[0m");
        assert(out@ =~= styled(danger_code(), text@));
    }
    out
}

/// Cyan.
pub fn style_category(text: &str) -> (s: String)
    ensures
        s@ == styled(category_code(), text@),
{
    let mut out = String::new();
    out.append("\x1b[36m");
    out.append(text);
    out.append("\x1b[0m");
    proof {
        reveal_strlit("\x1b[36m");
        reveal_strlit("\x1b[0m");
        assert(out@ =~= styled(category_code(), text@));
    }
    out
}

/// Faint.
pub fn style_dim(text: &str) -> (s: String)
    ensures
        s@ == styled(dim_code(), text@),
{
    let mut out = String::new();
    out.append("\x1b[2m");
    out.append(text);
    out.append("\x1b[0m");
    proof {
        reveal_strlit("\x1b[2m");
        reveal_strlit("\x1b[0m");
        assert(out@ =~= styled(dim_code(), text@));
    }
    out
}

/// Bold.
pub fn style_header(text: &str) -> (s: String)
    ensures
        s@ == styled(header_code(), text@),
{
    let mut out = String::new();
    out.append("\x1b[1m");
    out.append(text);
    out.append("\x1b[0m");
    proof {
        reveal_strlit("\x1b[1m");
        reveal_strlit("\x1b[0m");
        assert(out@ =~= styled(header_code(), text@));
    }
    out
}

} // verus!
