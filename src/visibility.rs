use vstd::prelude::*;

verus! {

/// Visibility level of a stored picture, from least to most restrictive.
#[derive(Clone, Copy, Debug, PartialEq, Eq, Structural)]
pub enum Display {
    Public,
    Authenticated,
    Vouched,
    Ndaed,
    Staff,
    Private,
}

/// Position of a level in the total order `Public < ... < Private`.
pub open spec fn rank(d: Display) -> nat {
    match d {
        Display::Public => 0,
        Display::Authenticated => 1,
        Display::Vouched => 2,
        Display::Ndaed => 3,
        Display::Staff => 4,
        Display::Private => 5,
    }
}

/// The wire name of a level.
pub open spec fn display_name(d: Display) -> Seq<char> {
    match d {
        Display::Public => seq!['p', 'u', 'b', 'l', 'i', 'c'],
        Display::Authenticated => seq!['a', 'u', 't', 'h', 'e', 'n', 't', 'i', 'c', 'a', 't', 'e', 'd'],
        Display::Vouched => seq!['v', 'o', 'u', 'c', 'h', 'e', 'd'],
        Display::Ndaed => seq!['n', 'd', 'a', 'e', 'd'],
        Display::Staff => seq!['s', 't', 'a', 'f', 'f'],
        Display::Private => seq!['p', 'r', 'i', 'v', 'a', 't', 'e'],
    }
}

/// The level whose wire name is `s`, if any.
pub open spec fn display_of_name(s: Seq<char>) -> Option<Display> {
    if s == display_name(Display::Public) {
        Some(Display::Public)
    } else if s == display_name(Display::Authenticated) {
        Some(Display::Authenticated)
    } else if s == display_name(Display::Vouched) {
        Some(Display::Vouched)
    } else if s == display_name(Display::Ndaed) {
        Some(Display::Ndaed)
    } else if s == display_name(Display::Staff) {
        Some(Display::Staff)
    } else if s == display_name(Display::Private) {
        Some(Display::Private)
    } else {
        None
    }
}

/// A requester at level `requester` may see content stored at level `stored`.
pub open spec fn may_view(requester: Display, stored: Display) -> bool {
    rank(stored) <= rank(requester)
}

/// Every level is recovered from its wire name.
pub proof fn lemma_display_name_round_trip(d: Display)
    ensures
        display_of_name(display_name(d)) == Some(d),
{
    let p = display_name(Display::Public);
    let a = display_name(Display::Authenticated);
    let v = display_name(Display::Vouched);
    let n = display_name(Display::Ndaed);
    let s = display_name(Display::Staff);
    let r = display_name(Display::Private);
    assert(p.len() == 6 && a.len() == 13 && v.len() == 7 && n.len() == 5 && s.len() == 5 && r.len() == 7);
    assert(p[1] != r[1]);
    assert(v[0] != r[0]);
    assert(n[0] != s[0]);
}

impl Display {
    /// Wire name of the level.
    pub fn as_str(&self) -> (r: &'static str)
        ensures
            r@ == display_name(*self),
    {
        proof {
            reveal_strlit("public");
            reveal_strlit("authenticated");
            reveal_strlit("vouched");
            reveal_strlit("ndaed");
            reveal_strlit("staff");
            reveal_strlit("private");
        }
        match self {
            Display::Public => "public",
            Display::Authenticated => "authenticated",
            Display::Vouched => "vouched",
            Display::Ndaed => "ndaed",
            Display::Staff => "staff",
            Display::Private => "private",
        }
    }

    /// Position of the level in the order, as a number.
    pub fn level(&self) -> (r: u8)
        ensures
            r as nat == rank(*self),
    {
        match self {
            Display::Public => 0,
            Display::Authenticated => 1,
            Display::Vouched => 2,
            Display::Ndaed => 3,
            Display::Staff => 4,
            Display::Private => 5,
        }
    }

    /// The level named by `s`; `None` for an unknown name.
    pub fn from_name(s: &str) -> (r: Option<Display>)
        ensures
            r == display_of_name(s@),
    {
        let all = [
            Display::Public,
            Display::Authenticated,
            Display::Vouched,
            Display::Ndaed,
            Display::Staff,
            Display::Private,
        ];
        let mut i: usize = 0;
        while i < 6
            invariant
                0 <= i <= 6,
                all@ == seq![
                    Display::Public,
                    Display::Authenticated,
                    Display::Vouched,
                    Display::Ndaed,
                    Display::Staff,
                    Display::Private,
                ],
                forall|j: int| 0 <= j < i ==> s@ != display_name(#[trigger] all@[j]),
            decreases 6 - i,
        {
            let d = all[i];
            if str_eq(s, d.as_str()) {
                proof {
                    lemma_display_name_round_trip(d);
                }
                return Some(d);
            }
            i = i + 1;
        }
        None
    }
}

/// Character-wise equality of two strings.
pub fn str_eq(a: &str, b: &str) -> (r: bool)
    ensures
        r == (a@ == b@),
{
    let n = a.unicode_len();
    if n != b.unicode_len() {
        return false;
    }
    let mut i: usize = 0;
    while i < n
        invariant
            n == a@.len() == b@.len(),
            0 <= i <= n,
            forall|j: int| 0 <= j < i ==> a@[j] == b@[j],
        decreases n - i,
    {
        if a.get_char(i) != b.get_char(i) {
            return false;
        }
        i = i + 1;
    }
    assert(a@ =~= b@);
    true
}

/// Whether a requester at level `requester` may see content stored at `stored`.
pub fn allows(requester: Display, stored: Display) -> (r: bool)
    ensures
        r == may_view(requester, stored),
{
    stored.level() <= requester.level()
}

} // verus!
