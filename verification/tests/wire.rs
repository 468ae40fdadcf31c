use conduit::comments::{
    add_comment_batch, add_comment_request, add_comment_response, comment_from_row,
    comment_id_from_path, comment_result_of, delete_comment_batch, delete_comment_response,
    get_comments_batch, get_comments_response, get_tags_command, get_tags_response,
    slug_from_comments_path, CommentRow,
};
use conduit::http::{json_response, preflight_response, unauthorized_response, join_sql_commands};
use conduit::json::{comment_result_json, comments_result_json, tags_result_json};
use conduit::models::{
    keep_present, last_row_value, Comment, CommentResult, CommentsResult, GetTagsResult, Profile,
};
use conduit::time::Timestamp;

fn sample_time() -> Timestamp {
    Timestamp { year: 2017, month: 7, day: 8, hour: 9, minute: 10, second: 11 }
}

fn sample_row() -> CommentRow {
    CommentRow {
        id: 42,
        created_at: sample_time(),
        body: String::from("His name was my name too."),
        username: String::from("jake"),
        bio: None,
        image: Some(String::from("http://x/y.png")),
        following_rows: 0,
    }
}

#[test]
fn comment_row_to_comment() {
    let c = comment_from_row(sample_row());
    assert_eq!(c.id, 42);
    assert_eq!(c.updated_at, sample_time());
    assert!(!c.author.following);
    let mut row = sample_row();
    row.following_rows = 1;
    assert!(comment_from_row(row).author.following);
    // Follow status is membership in the follow relation: any positive
    // row count means followed.
    let mut row2 = sample_row();
    row2.following_rows = 2;
    assert!(comment_from_row(row2).author.following);
}

#[test]
fn comment_result_wire_shape() {
    let result = comment_result_of(comment_from_row(sample_row()));
    let json = comment_result_json(&result);
    assert_eq!(
        json,
        "{\"comment\":{\"id\":42,\"createdAt\":\"2017-07-08T09:10:11\",\"updatedAt\":\"2017-07-08T09:10:11\",\"body\":\"His name was my name too.\",\"author\":{\"username\":\"jake\",\"bio\":null,\"image\":\"http://x/y.png\",\"following\":false}}}"
    );
}

#[test]
fn comment_body_is_escaped() {
    let comment = Comment {
        id: -5,
        created_at: Timestamp { year: 3, month: 11, day: 30, hour: 0, minute: 0, second: 59 },
        updated_at: sample_time(),
        body: String::from("a\"b\\c\nd\te\u{1}"),
        author: Profile {
            username: String::from("u"),
            bio: Some(String::from("b")),
            image: None,
            following: true,
        },
    };
    let json = comment_result_json(&CommentResult { comment });
    assert_eq!(
        json,
        "{\"comment\":{\"id\":-5,\"createdAt\":\"0003-11-30T00:00:59\",\"updatedAt\":\"2017-07-08T09:10:11\",\"body\":\"a\\\"b\\\\c\\nd\\te\\u0001\",\"author\":{\"username\":\"u\",\"bio\":\"b\",\"image\":null,\"following\":true}}}"
    );
}

#[test]
fn comments_list_wire_shape() {
    let a = comment_from_row(sample_row());
    let mut row = sample_row();
    row.id = 43;
    row.body = String::from("ok");
    let b = comment_from_row(row);
    let empty = CommentsResult { comments: vec![] };
    assert_eq!(comments_result_json(&empty), "{\"comments\":[]}");
    let two = CommentsResult { comments: vec![a, b] };
    let json = comments_result_json(&two);
    assert!(json.starts_with("{\"comments\":[{\"id\":42,"));
    assert!(json.contains("},{\"id\":43,"));
    assert!(json.ends_with("}]}"));
}

#[test]
fn tags_wire_shape() {
    let tags = GetTagsResult { tags: vec![String::from("rust"), String::from("verus")] };
    assert_eq!(tags_result_json(&tags), "{\"tags\":[\"rust\",\"verus\"]}");
}

#[test]
fn tags_response_splits_aggregate() {
    let r = get_tags_response(Some(String::from("rust,verus")));
    assert_eq!(r.status, 200);
    assert_eq!(r.body.as_deref(), Some("{\"tags\":[\"rust\",\"verus\"]}"));
    let none = get_tags_response(None);
    assert_eq!(none.body, None);
    let empty = get_tags_response(Some(String::new()));
    assert_eq!(empty.body.as_deref(), Some("{\"tags\":[\"\"]}"));
}

#[test]
fn add_comment_response_bodies() {
    let with_row = add_comment_response(Some(sample_row()));
    assert_eq!(with_row.status, 200);
    assert!(with_row.body.as_deref().unwrap().starts_with("{\"comment\":{\"id\":42,"));
    let without = add_comment_response(None);
    assert_eq!(without.body, None);
}

#[test]
fn get_comments_response_drops_unreadable_rows() {
    let rows = vec![Some(sample_row()), None, Some(sample_row())];
    let r = get_comments_response(rows);
    let body = r.body.unwrap();
    assert!(body.starts_with("{\"comments\":[{\"id\":42,"));
    assert_eq!(body.matches("\"id\":42").count(), 2);
    let empty = get_comments_response(vec![]);
    assert_eq!(empty.body.as_deref(), Some("{\"comments\":[]}"));
}

#[test]
fn delete_comment_response_has_headers_only() {
    let r = delete_comment_response();
    assert_eq!(r.status, 200);
    assert_eq!(r.body, None);
    assert_eq!(r.headers.len(), 3);
}

#[test]
fn response_headers_are_fixed() {
    let r = json_response(Some(String::from("{}")));
    assert_eq!(r.status, 200);
    assert_eq!(r.headers[0].0, "Access-Control-Allow-Origin");
    assert_eq!(r.headers[0].1, "*");
    assert_eq!(r.headers[1].0, "Access-Control-Allow-Headers");
    assert_eq!(r.headers[1].1, "content-type, authorization");
    assert_eq!(r.headers[2].0, "Content-Type");
    assert_eq!(r.headers[2].1, "application/json; charset=utf-8");
    assert_eq!(r.body.as_deref(), Some("{}"));
    let p = preflight_response();
    assert_eq!(p.body, None);
    assert_eq!(p.headers.len(), 3);
    let u = unauthorized_response();
    assert_eq!(u.status, 401);
    assert_eq!(u.headers.len(), 0);
}

#[test]
fn sql_commands_join_as_batch() {
    assert_eq!(
        join_sql_commands("DELETE TOP(1) FROM Comments WHERE Id = @P1", "SELECT 1"),
        "DELETE TOP(1) FROM Comments WHERE Id = @P1;SELECT 1"
    );
}

#[test]
fn slug_extraction_from_comment_paths() {
    assert_eq!(
        slug_from_comments_path("/api/articles/how-to-train/comments"),
        "how-to-train"
    );
    assert_eq!(slug_from_comments_path("/api/articles/a-b-c/comments/9"), "a-b-c/9");
}

#[test]
fn comment_id_extraction() {
    assert_eq!(comment_id_from_path("/api/articles/slug/comments/55"), Some(55));
    assert_eq!(comment_id_from_path("/api/articles/slug/comments/abc"), None);
    assert_eq!(comment_id_from_path("/api/articles/slug/comments/"), None);
}

#[test]
fn add_comment_request_extracts_slug_and_body() {
    let r = add_comment_request(
        "/api/articles/my-slug/comments",
        "{\"comment\": {\"body\": \"Hi\"}}",
    );
    let (slug, body) = r.unwrap();
    assert_eq!(slug, "my-slug");
    assert_eq!(body, "Hi");
    assert_eq!(add_comment_request("/api/articles/x/comments", "nope"), None);
}

#[test]
fn sql_batches_are_the_fixed_texts() {
    assert_eq!(
        add_comment_batch(),
        "declare @id int; select top 1 @id = id from Articles where Slug = @p1 ORDER BY 1; \n          DECLARE @logged int = @P2;\n          insert into Comments (createdAt, body, ArticleId, Author ) values (getdate(), @p3, @id, @logged);\n          declare @commentid int = SCOPE_IDENTITY(); \n        ;\n  select Comments.Id, createdAt, body,  Users.UserName, Users.Bio, Users.[Image], \n  (SELECT COUNT(*) FROM Followings WHERE FollowerId=@logged AND Author=FollowingId) as [Following]\n  from Comments inner join Users ON Users.Id = Comments.Author where Comments.Id = @commentid\n"
    );
    assert_eq!(
        delete_comment_batch(),
        "DELETE TOP(1) FROM Comments WHERE Id = @P1 AND Author=@P2;\n        ;SELECT 1"
    );
    assert!(get_comments_batch().starts_with(
        "declare @id int; select top 1 @id = id from Articles where Slug = @p1 ORDER BY 1;"
    ));
    assert!(get_comments_batch().ends_with("where ArticleId = @id"));
    assert_eq!(get_tags_command(), "SELECT STRING_AGG(Tag, ',') FROM [dbo].[Tags]");
}

#[test]
fn last_row_value_keeps_the_final_row() {
    let rows: Vec<Option<i32>> = vec![Some(1), Some(2)];
    assert_eq!(last_row_value(rows), Some(2));
    // A final row the mapper could not read overwrites earlier rows.
    let rows2: Vec<Option<i32>> = vec![Some(1), None];
    assert_eq!(last_row_value(rows2), None);
    let empty: Vec<Option<i32>> = vec![];
    assert_eq!(last_row_value(empty), None);
}

#[test]
fn keep_present_filters_in_order() {
    let v: Vec<Option<i32>> = vec![Some(1), None, Some(3), None];
    assert_eq!(keep_present(v), vec![1, 3]);
    let empty: Vec<Option<i32>> = vec![];
    assert_eq!(keep_present(empty), Vec::<i32>::new());
}
