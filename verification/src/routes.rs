//! The dispatch table of the API: each endpoint is a method and a path
//! pattern, and a request goes to the first registered entry whose
//! pattern matches its whole path.

use vstd::prelude::*;

verus! {

/// An HTTP method the API serves.
#[derive(Clone, Copy, Debug, PartialEq, Eq, Structural)]
pub enum Method {
    Get,
    Post,
    Put,
    Delete,
    Options,
}

/// The endpoints of the API, one per registered route.
#[derive(Clone, Copy, Debug, PartialEq, Eq, Structural)]
pub enum Endpoint {
    Hello,
    CreateDb,
    Login,
    Register,
    CurrentUser,
    TestPage,
    UpdateUser,
    GetProfile,
    Follow,
    Unfollow,
    CreateArticle,
    GetTags,
    AddComment,
    FavoriteArticle,
    UnfavoriteArticle,
    UpdateArticle,
    DeleteComment,
    DeleteArticle,
    Feed,
    GetComments,
    GetArticle,
    ListArticles,
    Preflight,
}

/// One atom of a path pattern: a fixed character, a character that may
/// be absent, or a stretch of any characters.
#[derive(Clone, Copy, Debug, PartialEq, Eq, Structural)]
pub enum Tok {
    Lit(char),
    OptChar(char),
    Wild,
}

/// Whether a path matches a pattern in full: a fixed character matches
/// itself, an optional character may be skipped, and a stretch matches
/// any run of characters, the empty run included.
pub open spec fn toks_match(p: Seq<Tok>, s: Seq<char>) -> bool
    decreases p.len(), s.len(),
{
    if p.len() == 0 {
        s.len() == 0
    } else {
        match p[0] {
            Tok::Lit(c) => s.len() > 0 && s[0] == c && toks_match(p.skip(1), s.skip(1)),
            Tok::OptChar(c) => toks_match(p.skip(1), s) || (s.len() > 0 && s[0] == c && toks_match(
                p.skip(1),
                s.skip(1),
            )),
            Tok::Wild => toks_match(p.skip(1), s) || (s.len() > 0 && toks_match(p, s.skip(1))),
        }
    }
}

/// The pattern a route text denotes: `.*` is a stretch, a character
/// before `?` may be absent, and every other character stands for
/// itself.
pub open spec fn toks_of(s: Seq<char>) -> Seq<Tok>
    decreases s.len(),
{
    if s.len() == 0 {
        Seq::empty()
    } else if s.len() >= 2 && s[0] == '.' && s[1] == '*' {
        seq![Tok::Wild] + toks_of(s.skip(2))
    } else if s.len() >= 2 && s[1] == '?' {
        seq![Tok::OptChar(s[0])] + toks_of(s.skip(2))
    } else {
        seq![Tok::Lit(s[0])] + toks_of(s.skip(1))
    }
}

/// Builds the pattern a route text denotes.
pub fn parse_pattern(s: &str) -> (r: Vec<Tok>)
    ensures
        r@ == toks_of(s@),
{
    let n = s.unicode_len();
    let mut out: Vec<Tok> = Vec::new();
    let mut i: usize = 0;
    proof {
        assert(s@.skip(0) =~= s@);
        assert(out@ + toks_of(s@) =~= toks_of(s@));
    }
    while i < n
        invariant
            i <= n,
            n == s@.len(),
            out@ + toks_of(s@.skip(i as int)) == toks_of(s@),
        decreases n - i,
    {
        let ghost prev = out@;
        let ghost suf = s@.skip(i as int);
        proof {
            assert(suf[0] == s@[i as int]);
            if suf.len() >= 2 {
                assert(suf[1] == s@[i + 1]);
            }
            assert(suf.skip(1) =~= s@.skip(i + 1));
            if i + 2 <= n {
                assert(suf.skip(2) =~= s@.skip(i + 2));
            }
        }
        let c = s.get_char(i);
        if i + 1 < n && c == '.' && s.get_char(i + 1) == '*' {
            out.push(Tok::Wild);
            proof {
                assert(out@ + toks_of(s@.skip(i + 2)) =~= prev + toks_of(suf));
            }
            i = i + 2;
        } else if i + 1 < n && s.get_char(i + 1) == '?' {
            out.push(Tok::OptChar(c));
            proof {
                assert(out@ + toks_of(s@.skip(i + 2)) =~= prev + toks_of(suf));
            }
            i = i + 2;
        } else {
            out.push(Tok::Lit(c));
            proof {
                assert(out@ + toks_of(s@.skip(i + 1)) =~= prev + toks_of(suf));
            }
            i = i + 1;
        }
    }
    proof {
        assert(s@.skip(n as int) =~= Seq::<char>::empty());
        assert(out@ =~= toks_of(s@));
    }
    out
}

/// Whether the path from position `si` matches the pattern from
/// position `pi`.
fn toks_match_at(p: &Vec<Tok>, pi: usize, s: &str, si: usize) -> (r: bool)
    requires
        pi <= p@.len(),
        si <= s@.len(),
    ensures
        r == toks_match(p@.skip(pi as int), s@.skip(si as int)),
    decreases p@.len() - pi, s@.len() - si,
{
    let np = p.len();
    let ns = s.unicode_len();
    let ghost sp = p@.skip(pi as int);
    let ghost ss = s@.skip(si as int);
    proof {
        if pi < np {
            assert(sp[0] == p@[pi as int]);
            assert(sp.skip(1) =~= p@.skip(pi + 1));
        }
        if si < ns {
            assert(ss[0] == s@[si as int]);
            assert(ss.skip(1) =~= s@.skip(si + 1));
        }
    }
    if pi == np {
        return si == ns;
    }
    match p[pi] {
        Tok::Lit(c) => {
            if si == ns {
                return false;
            }
            if s.get_char(si) != c {
                return false;
            }
            toks_match_at(p, pi + 1, s, si + 1)
        },
        Tok::OptChar(c) => {
            if toks_match_at(p, pi + 1, s, si) {
                return true;
            }
            if si < ns && s.get_char(si) == c {
                return toks_match_at(p, pi + 1, s, si + 1);
            }
            false
        },
        Tok::Wild => {
            if toks_match_at(p, pi + 1, s, si) {
                return true;
            }
            if si < ns {
                return toks_match_at(p, pi, s, si + 1);
            }
            false
        },
    }
}

/// Whether the whole path matches the pattern.
pub fn pattern_matches(p: &Vec<Tok>, path: &str) -> (r: bool)
    ensures
        r == toks_match(p@, path@),
{
    let r = toks_match_at(p, 0, path, 0);
    proof {
        assert(p@.skip(0) =~= p@);
        assert(path@.skip(0) =~= path@);
    }
    r
}

/// One registered route: a method, a path pattern, and the endpoint the
/// pair names.
pub struct Route {
    pub method: Method,
    pub pattern: Vec<Tok>,
    pub endpoint: Endpoint,
}

/// The route as a plain triple.
pub open spec fn route_model(r: Route) -> (Method, Seq<Tok>, Endpoint) {
    (r.method, r.pattern@, r.endpoint)
}

/// The dispatch table, in registration order.
pub open spec fn spec_route_table() -> Seq<(Method, Seq<Tok>, Endpoint)> {
    seq![
        (Method::Get, toks_of("/"@), Endpoint::Hello),
        (Method::Post, toks_of("/createdb"@), Endpoint::CreateDb),
        (Method::Post, toks_of("/api/users/login"@), Endpoint::Login),
        (Method::Post, toks_of("/api/users"@), Endpoint::Register),
        (Method::Get, toks_of("/api/user"@), Endpoint::CurrentUser),
        (Method::Get, toks_of("/test"@), Endpoint::TestPage),
        (Method::Put, toks_of("/api/user"@), Endpoint::UpdateUser),
        (Method::Get, toks_of("/api/profiles/.*"@), Endpoint::GetProfile),
        (Method::Post, toks_of("/api/profiles/.*/follow"@), Endpoint::Follow),
        (Method::Delete, toks_of("/api/profiles/.*/follow"@), Endpoint::Unfollow),
        (Method::Post, toks_of("/api/articles"@), Endpoint::CreateArticle),
        (Method::Get, toks_of("/api/tags"@), Endpoint::GetTags),
        (Method::Post, toks_of("/api/articles/.*/comments"@), Endpoint::AddComment),
        (Method::Post, toks_of("/api/articles/.*/favorite"@), Endpoint::FavoriteArticle),
        (Method::Delete, toks_of("/api/articles/.*/favorite"@), Endpoint::UnfavoriteArticle),
        (Method::Put, toks_of("/api/articles/.*"@), Endpoint::UpdateArticle),
        (Method::Delete, toks_of("/api/articles/.*/comments/.*"@), Endpoint::DeleteComment),
        (Method::Delete, toks_of("/api/articles/.*"@), Endpoint::DeleteArticle),
        (Method::Get, toks_of("/api/articles/feed"@), Endpoint::Feed),
        (Method::Get, toks_of("/api/articles/.*/comments"@), Endpoint::GetComments),
        (Method::Get, toks_of("/api/articles/.*"@), Endpoint::GetArticle),
        (Method::Get, toks_of("/api/articles?.*"@), Endpoint::ListArticles),
        (Method::Options, toks_of("/api/.*"@), Endpoint::Preflight),
    ]
}

/// Builds the dispatch table, in registration order.
pub fn route_table() -> (r: Vec<Route>)
    ensures
        r@.map_values(|rt: Route| route_model(rt)) == spec_route_table(),
{
    let mut t: Vec<Route> = Vec::new();
    t.push(Route { method: Method::Get, pattern: parse_pattern("/"), endpoint: Endpoint::Hello });
    t.push(
        Route {
            method: Method::Post,
            pattern: parse_pattern("/createdb"),
            endpoint: Endpoint::CreateDb,
        },
    );
    t.push(
        Route {
            method: Method::Post,
            pattern: parse_pattern("/api/users/login"),
            endpoint: Endpoint::Login,
        },
    );
    t.push(
        Route {
            method: Method::Post,
            pattern: parse_pattern("/api/users"),
            endpoint: Endpoint::Register,
        },
    );
    t.push(
        Route {
            method: Method::Get,
            pattern: parse_pattern("/api/user"),
            endpoint: Endpoint::CurrentUser,
        },
    );
    t.push(
        Route { method: Method::Get, pattern: parse_pattern("/test"), endpoint: Endpoint::TestPage },
    );
    t.push(
        Route {
            method: Method::Put,
            pattern: parse_pattern("/api/user"),
            endpoint: Endpoint::UpdateUser,
        },
    );
    t.push(
        Route {
            method: Method::Get,
            pattern: parse_pattern("/api/profiles/.*"),
            endpoint: Endpoint::GetProfile,
        },
    );
    t.push(
        Route {
            method: Method::Post,
            pattern: parse_pattern("/api/profiles/.*/follow"),
            endpoint: Endpoint::Follow,
        },
    );
    t.push(
        Route {
            method: Method::Delete,
            pattern: parse_pattern("/api/profiles/.*/follow"),
            endpoint: Endpoint::Unfollow,
        },
    );
    t.push(
        Route {
            method: Method::Post,
            pattern: parse_pattern("/api/articles"),
            endpoint: Endpoint::CreateArticle,
        },
    );
    t.push(
        Route {
            method: Method::Get,
            pattern: parse_pattern("/api/tags"),
            endpoint: Endpoint::GetTags,
        },
    );
    t.push(
        Route {
            method: Method::Post,
            pattern: parse_pattern("/api/articles/.*/comments"),
            endpoint: Endpoint::AddComment,
        },
    );
    t.push(
        Route {
            method: Method::Post,
            pattern: parse_pattern("/api/articles/.*/favorite"),
            endpoint: Endpoint::FavoriteArticle,
        },
    );
    t.push(
        Route {
            method: Method::Delete,
            pattern: parse_pattern("/api/articles/.*/favorite"),
            endpoint: Endpoint::UnfavoriteArticle,
        },
    );
    t.push(
        Route {
            method: Method::Put,
            pattern: parse_pattern("/api/articles/.*"),
            endpoint: Endpoint::UpdateArticle,
        },
    );
    t.push(
        Route {
            method: Method::Delete,
            pattern: parse_pattern("/api/articles/.*/comments/.*"),
            endpoint: Endpoint::DeleteComment,
        },
    );
    t.push(
        Route {
            method: Method::Delete,
            pattern: parse_pattern("/api/articles/.*"),
            endpoint: Endpoint::DeleteArticle,
        },
    );
    t.push(
        Route {
            method: Method::Get,
            pattern: parse_pattern("/api/articles/feed"),
            endpoint: Endpoint::Feed,
        },
    );
    t.push(
        Route {
            method: Method::Get,
            pattern: parse_pattern("/api/articles/.*/comments"),
            endpoint: Endpoint::GetComments,
        },
    );
    t.push(
        Route {
            method: Method::Get,
            pattern: parse_pattern("/api/articles/.*"),
            endpoint: Endpoint::GetArticle,
        },
    );
    t.push(
        Route {
            method: Method::Get,
            pattern: parse_pattern("/api/articles?.*"),
            endpoint: Endpoint::ListArticles,
        },
    );
    t.push(
        Route {
            method: Method::Options,
            pattern: parse_pattern("/api/.*"),
            endpoint: Endpoint::Preflight,
        },
    );
    proof {
        assert(t@.map_values(|rt: Route| route_model(rt)) =~= spec_route_table());
    }
    t
}

/// The first entry of the table whose method equals the request's and
/// whose pattern matches the whole path.
pub open spec fn spec_dispatch(
    table: Seq<(Method, Seq<Tok>, Endpoint)>,
    m: Method,
    path: Seq<char>,
) -> Option<Endpoint>
    decreases table.len(),
{
    if table.len() == 0 {
        None
    } else if table[0].0 == m && toks_match(table[0].1, path) {
        Some(table[0].2)
    } else {
        spec_dispatch(table.skip(1), m, path)
    }
}

/// The endpoint a request goes to: the first registered route whose
/// method and pattern fit, or none.
pub fn dispatch(table: &Vec<Route>, m: Method, path: &str) -> (r: Option<Endpoint>)
    ensures
        r == spec_dispatch(table@.map_values(|rt: Route| route_model(rt)), m, path@),
{
    let ghost model = table@.map_values(|rt: Route| route_model(rt));
    let n = table.len();
    let mut i: usize = 0;
    proof {
        assert(model.skip(0) =~= model);
    }
    while i < n
        invariant
            i <= n,
            n == table@.len(),
            model == table@.map_values(|rt: Route| route_model(rt)),
            spec_dispatch(model, m, path@) == spec_dispatch(model.skip(i as int), m, path@),
        decreases n - i,
    {
        let ghost suf = model.skip(i as int);
        proof {
            assert(suf[0] == model[i as int]);
            assert(suf.skip(1) =~= model.skip(i + 1));
        }
        let method_fits = match (table[i].method, m) {
            (Method::Get, Method::Get) => true,
            (Method::Post, Method::Post) => true,
            (Method::Put, Method::Put) => true,
            (Method::Delete, Method::Delete) => true,
            (Method::Options, Method::Options) => true,
            _ => false,
        };
        if method_fits {
            if pattern_matches(&table[i].pattern, path) {
                proof {
                    assert(spec_dispatch(suf, m, path@) == Some(model[i as int].2));
                }
                return Some(table[i].endpoint);
            }
        }
        i = i + 1;
    }
    None
}

/// The endpoint a request goes to under the API's registered routes.
pub fn route_request(m: Method, path: &str) -> (r: Option<Endpoint>)
    ensures
        r == spec_dispatch(spec_route_table(), m, path@),
{
    let table = route_table();
    dispatch(&table, m, path)
}

} // verus!
