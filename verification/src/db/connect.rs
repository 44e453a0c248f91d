use vstd::prelude::*;

verus! {

/// The text "sqlite:".
pub open spec fn sqlite_scheme() -> Seq<char> {
    seq!['s', 'q', 'l', 'i', 't', 'e', ':']
}

/// The URL starts with "sqlite:".
pub open spec fn has_sqlite_scheme(url: Seq<char>) -> bool {
    url.len() >= 7 && url.take(7) == sqlite_scheme()
}

/// `e` is where the file path of a "sqlite:" URL ends: at the first '?'
/// after the scheme, or at the end of the URL.
pub open spec fn is_path_end(url: Seq<char>, e: int) -> bool {
    &&& 7 <= e <= url.len()
    &&& forall|t: int| 7 <= t < e ==> url[t] != '?'
    &&& (e == url.len() || url[e] == '?')
}

/// The database file a "sqlite:" URL names: what follows the scheme, up to
/// its query string. `None` for a URL of another scheme, for which no
/// directory is created.
pub fn sqlite_file_path(database_url: &str) -> (r: Option<String>)
    ensures
        match r {
            Some(p) => has_sqlite_scheme(database_url@) && exists|e: int|
                is_path_end(database_url@, e) && p@ == database_url@.subrange(7, e),
            None => !has_sqlite_scheme(database_url@),
        },
        r is Some <==> (database_url@.len() >= 7 && database_url@.take(7) == seq![
            's',
            'q',
            'l',
            'i',
            't',
            'e',
            ':',
        ]),
        r matches Some(p) ==> exists|e: int|
            #![trigger database_url@.subrange(7, e)]
            7 <= e <= database_url@.len() && (forall|t: int|
                7 <= t < e ==> #[trigger] database_url@[t] != '?') && (e == database_url@.len()
                || database_url@[e] == '?') && p@ == database_url@.subrange(7, e),
{
    let n = database_url.unicode_len();
    if n < 7 {
        return None;
    }
    let scheme = "sqlite:";
    proof { reveal_strlit("sqlite:"); }
    assert(scheme@ == sqlite_scheme());
    let mut i: usize = 0;
    while i < 7
        invariant
            i <= 7 <= n,
            n == database_url@.len(),
            scheme@ == sqlite_scheme(),
            forall|t: int| 0 <= t < i ==> database_url@[t] == sqlite_scheme()[t],
        decreases 7 - i,
    {
        if database_url.get_char(i) != scheme.get_char(i) {
            assert(database_url@.take(7)[i as int] != sqlite_scheme()[i as int]);
            return None;
        }
        i = i + 1;
    }
    assert(database_url@.take(7) =~= sqlite_scheme());
    let mut e: usize = 7;
    while e < n && database_url.get_char(e) != '?'
        invariant
            7 <= e <= n,
            n == database_url@.len(),
            forall|t: int| 7 <= t < e ==> database_url@[t] != '?',
        decreases n - e,
    {
        e = e + 1;
    }
    assert(is_path_end(database_url@, e as int));
    let path = database_url.substring_char(7, e);
    let r = path.to_owned();
    assert(forall|t: int| 7 <= t < e ==> #[trigger] database_url@[t] != '?');
    assert(7 <= e <= database_url@.len() && (forall|t: int|
        7 <= t < e ==> #[trigger] database_url@[t] != '?') && (e == database_url@.len()
        || database_url@[e as int] == '?') && r@ == database_url@.subrange(7, e as int));
    Some(r)
}

} // verus!
