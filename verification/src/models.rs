//! The plain data-transfer structs that mirror the JSON wire shapes of
//! the API: users, profiles, articles, comments, tags, and the request
//! bodies the endpoints accept.

use crate::time::Timestamp;
use vstd::prelude::*;

verus! {

/// A public view of a user, as returned inside articles and comments.
pub struct Profile {
    pub username: String,
    pub bio: Option<String>,
    pub image: Option<String>,
    pub following: bool,
}

/// Wire wrapper: `{"profile": ...}`.
pub struct ProfileResult {
    pub profile: Profile,
}

/// A user record with its fresh token, as returned by login and
/// registration.
pub struct User {
    pub email: String,
    pub token: String,
    pub username: String,
    pub bio: Option<String>,
    pub image: Option<String>,
}

/// Wire wrapper: `{"user": ...}`.
pub struct UserResult {
    pub user: User,
}

/// The fields of a registration request.
pub struct RegistrationDetails {
    pub email: String,
    pub username: String,
    pub password: String,
}

/// Wire wrapper of a registration request: `{"user": ...}`.
pub struct Registration {
    pub user: RegistrationDetails,
}

/// The fields of a login request.
pub struct LoginDetails {
    pub email: String,
    pub password: String,
}

/// Wire wrapper of a login request: `{"user": ...}`.
pub struct Login {
    pub user: LoginDetails,
}

/// The fields a user-update request may change; absent fields stay.
pub struct UpdateUserDetail {
    pub email: Option<String>,
    pub username: Option<String>,
    pub password: Option<String>,
    pub bio: Option<String>,
    pub image: Option<String>,
}

/// Wire wrapper of a user-update request: `{"user": ...}`.
pub struct UpdateUser {
    pub user: UpdateUserDetail,
}

/// An article as sent on the wire.
pub struct ArticleDto {
    pub slug: String,
    pub title: String,
    pub description: String,
    pub body: String,
    pub tag_list: Vec<String>,
    pub created_at: Timestamp,
    pub updated_at: Option<Timestamp>,
    pub favorited: bool,
    pub favorites_count: i32,
    pub author: Profile,
}

/// The fields of an article-creation request.
pub struct CreateArticleDetail {
    pub title: String,
    pub description: String,
    pub body: String,
    pub tag_list: Option<Vec<String>>,
}

/// Wire wrapper of an article-creation request: `{"article": ...}`.
pub struct CreateArticle {
    pub article: CreateArticleDetail,
}

/// Wire wrapper of the article returned after creation.
pub struct CreateArticleResult {
    pub article: ArticleDto,
}

/// The fields an article-update request may change; absent fields stay.
pub struct UpdateArticleDetail {
    pub title: Option<String>,
    pub description: Option<String>,
    pub body: Option<String>,
}

/// Wire wrapper of an article-update request: `{"article": ...}`.
pub struct UpdateArticle {
    pub article: UpdateArticleDetail,
}

/// A comment on an article. Its creation time doubles as the update
/// time until the comment is edited.
pub struct Comment {
    pub id: i32,
    pub created_at: Timestamp,
    pub updated_at: Timestamp,
    pub body: String,
    pub author: Profile,
}

/// Wire wrapper: `{"comment": ...}`.
pub struct CommentResult {
    pub comment: Comment,
}

/// Wire wrapper: `{"comments": [...]}`.
pub struct CommentsResult {
    pub comments: Vec<Comment>,
}

/// The body field of a comment-creation request.
pub struct AddCommentDetail {
    pub body: String,
}

/// Wire wrapper of a comment-creation request: `{"comment": ...}`.
pub struct AddComment {
    pub comment: AddCommentDetail,
}

/// Wire wrapper of the tag list: `{"tags": [...]}`.
pub struct GetTagsResult {
    pub tags: Vec<String>,
}

/// Wire shape of an error response: `{"errors": {"body": [...]}}`.
pub struct ErrorDetail {
    pub body: Vec<String>,
}

/// Wire wrapper of an error response.
pub struct InternalError {
    pub errors: ErrorDetail,
}

impl CommentsResult {
    /// Wraps the comments a query returned in the wire shape of the
    /// collection.
    pub fn create_new_with_items(items: Vec<Comment>) -> (r: CommentsResult)
        ensures
            r.comments == items,
    {
        CommentsResult { comments: items }
    }
}

impl GetTagsResult {
    /// Wraps the tag names a query returned in the wire shape of the
    /// collection.
    pub fn create_new_with_items(items: Vec<String>) -> (r: GetTagsResult)
        ensures
            r.tags == items,
    {
        GetTagsResult { tags: items }
    }
}

/// The characters of an optional text.
pub open spec fn opt_string_view(o: Option<String>) -> Option<Seq<char>> {
    match o {
        Option::None => None,
        Option::Some(t) => Some(t@),
    }
}

/// The value a single-result row loop leaves behind when each row
/// overwrites the last: the final row's mapped value, or none when the
/// query returned no row.
pub fn last_row_value<T>(rows: Vec<Option<T>>) -> (r: Option<T>)
    ensures
        r == (if rows@.len() == 0 {
            None::<T>
        } else {
            rows@.last()
        }),
{
    let mut rows = rows;
    match rows.pop() {
        None => None,
        Some(v) => v,
    }
}

/// Keeps, in order, the values of the rows a query produced: a row that
/// could not be read (`None`) is dropped, the rest are kept unchanged.
pub open spec fn present_values<T>(s: Seq<Option<T>>) -> Seq<T>
    decreases s.len(),
{
    if s.len() == 0 {
        Seq::empty()
    } else {
        match s[0] {
            Some(v) => seq![v] + present_values(s.skip(1)),
            None => present_values(s.skip(1)),
        }
    }
}

/// Collects the values present in `items`, dropping the `None` rows and
/// keeping the order of the rest.
pub fn keep_present<T>(items: Vec<Option<T>>) -> (r: Vec<T>)
    ensures
        r@ == present_values(items@),
{
    let ghost orig = items@;
    let mut rest = items;
    let mut out: Vec<T> = Vec::new();
    while rest.len() != 0
        invariant
            out@ + present_values(rest@) == present_values(orig),
        decreases rest@.len(),
    {
        let ghost prev = rest@;
        let ghost prev_out = out@;
        let head = rest.remove(0);
        proof {
            assert(head == prev[0]);
            assert(rest@ =~= prev.skip(1));
        }
        match head {
            Some(v) => {
                out.push(v);
                proof {
                    assert(present_values(prev) == seq![v] + present_values(prev.skip(1)));
                    assert(out@ + present_values(rest@) =~= prev_out + present_values(prev));
                }
            },
            None => {
                proof {
                    assert(present_values(prev) == present_values(prev.skip(1)));
                }
            },
        }
    }
    proof {
        assert(present_values(rest@) =~= Seq::<T>::empty());
        assert(out@ =~= present_values(orig));
    }
    out
}

} // verus!
