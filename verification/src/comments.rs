//! The comment endpoints' decisions: what a comment row yields, what a
//! comment request means, and the exact body each comment response
//! carries. The program supplies the rows and sends the responses.

use crate::http::{headers_model, json_response, spec_cors_headers, ApiResponse};
use crate::json::{
    comment_result_json, comments_result_json, json_comment_items, json_of_comment_result,
    parse_add_comment, parsed_add_comment, tags_result_json, json_string_items,
};
use crate::models::{
    opt_string_view, Comment, CommentResult, CommentsResult, GetTagsResult, Profile,
};
use crate::textutil::{
    after_last_slash, last_path_segment, parse_i32, parsed_i32, replace_seq, split_commas,
    split_on_commas,
};
use crate::time::Timestamp;
use vstd::prelude::*;

verus! {

/// The columns the comment queries select: the comment's id, creation
/// time and text, then its author's name, bio and image, and how many
/// follow rows tie the acting user to the author.
pub struct CommentRow {
    pub id: i32,
    pub created_at: Timestamp,
    pub body: String,
    pub username: String,
    pub bio: Option<String>,
    pub image: Option<String>,
    pub following_rows: i32,
}

/// The comment a row denotes: the follow flag holds exactly when at
/// least one follow row ties the acting user to the author (follow
/// status is membership in the many-to-many follow relation), and the
/// creation time doubles as the update time.
pub open spec fn spec_comment_of_row(r: CommentRow) -> Comment {
    Comment {
        id: r.id,
        created_at: r.created_at,
        updated_at: r.created_at,
        body: r.body,
        author: Profile {
            username: r.username,
            bio: r.bio,
            image: r.image,
            following: r.following_rows >= 1,
        },
    }
}

/// Builds the comment a query row denotes.
pub fn comment_from_row(row: CommentRow) -> (c: Comment)
    ensures
        c == spec_comment_of_row(row),
{
    let following = row.following_rows >= 1;
    Comment {
        id: row.id,
        created_at: row.created_at,
        updated_at: row.created_at,
        body: row.body,
        author: Profile {
            username: row.username,
            bio: row.bio,
            image: row.image,
            following,
        },
    }
}

/// Wraps a comment in the wire shape of a single-comment response.
pub fn comment_result_of(c: Comment) -> (r: CommentResult)
    ensures
        r.comment == c,
{
    CommentResult { comment: c }
}

/// The article slug inside a comments path: the path with the article
/// prefix and the comments suffix removed, each wherever it occurs.
pub open spec fn spec_slug_of_comments_path(path: Seq<char>) -> Seq<char> {
    replace_seq(
        replace_seq(path, "/api/articles/"@, Seq::empty()),
        "/comments"@,
        Seq::empty(),
    )
}

/// Extracts the article slug from a comments path.
pub fn slug_from_comments_path(path: &str) -> (r: String)
    ensures
        r@ == spec_slug_of_comments_path(path@),
{
    proof {
        reveal_strlit("/api/articles/");
        reveal_strlit("/comments");
        reveal_strlit("");
        assert(""@ =~= Seq::<char>::empty());
    }
    let stripped = crate::textutil::replace_all(path, "/api/articles/", "");
    crate::textutil::replace_all(stripped.as_str(), "/comments", "")
}

/// The comment id inside a deletion path: its last `/`-separated
/// segment read as a decimal number, or none when that segment is no
/// number.
pub fn comment_id_from_path(path: &str) -> (r: Option<i32>)
    ensures
        r == parsed_i32(after_last_slash(path@)),
{
    let seg = last_path_segment(path);
    parse_i32(seg.as_str())
}

/// The slug and decoded comment text of a comment-creation request, or
/// none when the request body lies outside the accepted grammar.
pub fn add_comment_request(path: &str, body: &str) -> (r: Option<(String, String)>)
    ensures
        match r {
            None => parsed_add_comment(body@) is None,
            Some(p) => p.0@ == spec_slug_of_comments_path(path@) && parsed_add_comment(body@)
                == Some(p.1@),
        },
{
    match parse_add_comment(body) {
        None => None,
        Some(text) => Some((slug_from_comments_path(path), text)),
    }
}

/// The query that reads one comment with its author and the acting
/// user's follow count, by comment id.
pub open spec fn spec_comment_select_sql() -> Seq<char> {
    "\n  select Comments.Id, createdAt, body,  Users.UserName, Users.Bio, Users.[Image], \n  (SELECT COUNT(*) FROM Followings WHERE FollowerId=@logged AND Author=FollowingId) as [Following]\n  from Comments inner join Users ON Users.Id = Comments.Author where Comments.Id = @commentid\n"@
}

/// The batch the comment-insertion endpoint hands the database: resolve
/// the article by its slug, insert the comment as the acting user,
/// remember the new comment's id, then read that comment back.
pub fn add_comment_batch() -> (r: String)
    ensures
        r@ == "declare @id int; select top 1 @id = id from Articles where Slug = @p1 ORDER BY 1; \n          DECLARE @logged int = @P2;\n          insert into Comments (createdAt, body, ArticleId, Author ) values (getdate(), @p3, @id, @logged);\n          declare @commentid int = SCOPE_IDENTITY(); \n        "@
            + ";"@ + spec_comment_select_sql(),
{
    crate::http::join_sql_commands(
        "declare @id int; select top 1 @id = id from Articles where Slug = @p1 ORDER BY 1; \n          DECLARE @logged int = @P2;\n          insert into Comments (createdAt, body, ArticleId, Author ) values (getdate(), @p3, @id, @logged);\n          declare @commentid int = SCOPE_IDENTITY(); \n        ",
        "\n  select Comments.Id, createdAt, body,  Users.UserName, Users.Bio, Users.[Image], \n  (SELECT COUNT(*) FROM Followings WHERE FollowerId=@logged AND Author=FollowingId) as [Following]\n  from Comments inner join Users ON Users.Id = Comments.Author where Comments.Id = @commentid\n",
    )
}

/// The batch the comment-deletion endpoint hands the database: delete
/// the comment only where the acting user is its author, then select a
/// marker row.
pub fn delete_comment_batch() -> (r: String)
    ensures
        r@ == "DELETE TOP(1) FROM Comments WHERE Id = @P1 AND Author=@P2;\n        "@ + ";"@
            + "SELECT 1"@,
{
    crate::http::join_sql_commands(
        "DELETE TOP(1) FROM Comments WHERE Id = @P1 AND Author=@P2;\n        ",
        "SELECT 1",
    )
}

/// The batch the comment-listing endpoint hands the database: resolve
/// the article by its slug and the acting user, then read the article's
/// comments with their authors and follow counts.
pub fn get_comments_batch() -> (r: String)
    ensures
        r@ == "declare @id int; select top 1 @id = id from Articles where Slug = @p1 ORDER BY 1;\n        declare @logged int = @p2;\n        "@
            + ";"@
            + "select Comments.Id, createdAt, body,  Users.UserName, Users.Bio, Users.[Image],\n        (SELECT COUNT(*) FROM Followings WHERE FollowerId=@logged AND Author=FollowingId) as [Following]\n                from Comments inner join Users ON Users.Id = Comments.Author where ArticleId = @id"@,
{
    crate::http::join_sql_commands(
        "declare @id int; select top 1 @id = id from Articles where Slug = @p1 ORDER BY 1;\n        declare @logged int = @p2;\n        ",
        "select Comments.Id, createdAt, body,  Users.UserName, Users.Bio, Users.[Image],\n        (SELECT COUNT(*) FROM Followings WHERE FollowerId=@logged AND Author=FollowingId) as [Following]\n                from Comments inner join Users ON Users.Id = Comments.Author where ArticleId = @id",
    )
}

/// The query the tag-listing endpoint hands the database: every tag,
/// aggregated into one comma-separated row.
pub fn get_tags_command() -> (r: &'static str)
    ensures
        r@ == "SELECT STRING_AGG(Tag, ',') FROM [dbo].[Tags]"@,
{
    "SELECT STRING_AGG(Tag, ',') FROM [dbo].[Tags]"
}

/// The comments of the rows a query returned, in order, dropping rows
/// that could not be read.
pub open spec fn comments_of_rows(s: Seq<Option<CommentRow>>) -> Seq<Comment>
    decreases s.len(),
{
    if s.len() == 0 {
        Seq::empty()
    } else {
        match s[0] {
            Some(rw) => seq![spec_comment_of_row(rw)] + comments_of_rows(s.skip(1)),
            None => comments_of_rows(s.skip(1)),
        }
    }
}

/// The response after adding a comment: the fixed JSON headers, and the
/// stored comment's wire shape when the insertion query returned its
/// row.
pub fn add_comment_response(row: Option<CommentRow>) -> (r: ApiResponse)
    ensures
        r.status == 200,
        headers_model(r.headers@) == spec_cors_headers(),
        match row {
            None => r.body is None,
            Some(rw) => opt_string_view(r.body) == Some(
                json_of_comment_result(CommentResult { comment: spec_comment_of_row(rw) }),
            ),
        },
{
    match row {
        None => json_response(None),
        Some(rw) => {
            let result = comment_result_of(comment_from_row(rw));
            let body = comment_result_json(&result);
            json_response(Some(body))
        },
    }
}

/// The response after deleting a comment: the fixed JSON headers and no
/// body.
pub fn delete_comment_response() -> (r: ApiResponse)
    ensures
        r.status == 200,
        headers_model(r.headers@) == spec_cors_headers(),
        r.body is None,
{
    json_response(None)
}

/// The response listing an article's comments: the fixed JSON headers
/// and the wire shape of the readable rows' comments, in order.
pub fn get_comments_response(rows: Vec<Option<CommentRow>>) -> (r: ApiResponse)
    ensures
        r.status == 200,
        headers_model(r.headers@) == spec_cors_headers(),
        opt_string_view(r.body) == Some(
            "{\"comments\":["@ + json_comment_items(comments_of_rows(rows@)) + "]}"@,
        ),
{
    let ghost orig = rows@;
    let mut rest = rows;
    let mut items: Vec<Comment> = Vec::new();
    while rest.len() != 0
        invariant
            items@ + comments_of_rows(rest@) == comments_of_rows(orig),
        decreases rest@.len(),
    {
        let ghost prev = rest@;
        let head = rest.remove(0);
        proof {
            assert(head == prev[0]);
            assert(rest@ =~= prev.skip(1));
        }
        match head {
            Some(rw) => {
                items.push(comment_from_row(rw));
                proof {
                    assert(items@ + comments_of_rows(rest@) =~= comments_of_rows(orig));
                }
            },
            None => {},
        }
    }
    proof {
        assert(comments_of_rows(rest@) =~= Seq::<Comment>::empty());
        assert(items@ =~= comments_of_rows(orig));
    }
    let result = CommentsResult::create_new_with_items(items);
    let body = comments_result_json(&result);
    json_response(Some(body))
}

/// The response listing the tags: the fixed JSON headers, and the tag
/// names split out of the aggregated row when the query returned one.
pub fn get_tags_response(aggregated: Option<String>) -> (r: ApiResponse)
    ensures
        r.status == 200,
        headers_model(r.headers@) == spec_cors_headers(),
        match aggregated {
            None => r.body is None,
            Some(agg) => opt_string_view(r.body) == Some(
                "{\"tags\":["@ + json_string_items(split_commas(agg@)) + "]}"@,
            ),
        },
{
    match aggregated {
        None => json_response(None),
        Some(agg) => {
            let tags = split_on_commas(agg.as_str());
            let result = GetTagsResult::create_new_with_items(tags);
            let body = tags_result_json(&result);
            json_response(Some(body))
        },
    }
}

} // verus!
