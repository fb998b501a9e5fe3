use github_action_committer_coverage_stats::github::{
    expand_blame_ranges, BlameRange, GitHubClient,
};

#[test]
fn test_githubclient_parse_user_from_search_response_success() {
    let response = r#"
        {
            "total_count": 1,
            "incomplete_results": false,
            "items": [
              {
                "login": "testuser",
                "id": 1234567890,
                "node_id": "MDQ6VXNlcjUyMzI4OQ==",
                "avatar_url": "https://avatars.githubusercontent.com/u/1234567890?v=4",
                "gravatar_id": "",
                "url": "https://api.github.com/users/testuser",
                "html_url": "https://github.com/testuser",
                "followers_url": "https://api.github.com/users/testuser/followers",
                "following_url": "https://api.github.com/users/testuser/following{/other_user}",
                "gists_url": "https://api.github.com/users/testuser/gists{/gist_id}",
                "starred_url": "https://api.github.com/users/testuser/starred{/owner}{/repo}",
                "subscriptions_url": "https://api.github.com/users/testuser/subscriptions",
                "organizations_url": "https://api.github.com/users/testuser/orgs",
                "repos_url": "https://api.github.com/users/testuser/repos",
                "events_url": "https://api.github.com/users/testuser/events{/privacy}",
                "received_events_url": "https://api.github.com/users/testuser/received_events",
                "type": "User",
                "site_admin": false,
                "score": 1.0
              }
            ]
          }
        "#;

    let user = GitHubClient::parse_user_from_search_response(response);
    assert!(user.is_ok());
    let user = user.unwrap();
    assert!(user.is_some());
    let user = user.unwrap();
    assert_eq!(user.username, "testuser");
    assert_eq!(user.avatar_url, "https://avatars.githubusercontent.com/u/1234567890?v=4");
    assert_eq!(user.url, "https://github.com/testuser");
}

#[test]
fn test_githubclient_parse_user_from_search_response_empty() {
    let response = r#"
        {
            "total_count": 0,
            "incomplete_results": false,
            "items": []
          }
        "#;

    let user = GitHubClient::parse_user_from_search_response(response);
    assert!(user.is_ok());
    let user = user.unwrap();
    assert!(user.is_none());
}

#[test]
fn search_response_errors() {
    assert!(GitHubClient::parse_user_from_search_response("not json").is_err());
    assert!(GitHubClient::parse_user_from_search_response(r#"{"items": []}"#).is_err());
    assert!(GitHubClient::parse_user_from_search_response(r#"{"total_count": null}"#).is_err());
    let partial = GitHubClient::parse_user_from_search_response(r#"{"total_count": 2, "items": [{"login": "x"}]}"#)
        .unwrap()
        .unwrap();
    assert_eq!("x", partial.username);
    assert_eq!("null", partial.url);
    assert!(GitHubClient::parse_user_from_search_response(r#"{"total_count": 2, "items": [{"login": 3}]}"#).is_err());
    assert!(GitHubClient::parse_user_from_search_response(r#"{"total_count": 2, "items": []}"#).unwrap().is_none());
}

#[test]
fn test_githubclient_parse_blame_lines_from_api_graphql_blame_response_should_return_correct_value() {
    let response = r#"
        {
            "data": {
              "repository": {
                "object": {
                  "blame": {
                    "ranges": [
                      {
                        "startingLine": 1,
                        "endingLine": 5,
                        "commit": {
                          "oid": "8d5445550b1948b914853fc7f210ff3622ee0c18",
                          "author": {
                            "name": "User 1",
                            "email": "user1@example.com"
                          }
                        }
                      },
                      {
                        "startingLine": 6,
                        "endingLine": 6,
                        "commit": {
                          "oid": "5d2595a1368702ac796582016b764dedceabde85",
                          "author": {
                            "name": "User 2",
                            "email": "user2@example.com"
                          }
                        }
                      },
                      {
                        "startingLine": 7,
                        "endingLine": 57,
                        "commit": {
                          "oid": "8d5445550b1948b914853fc7f210ff3622ee0c18",
                          "author": {
                            "name": "User 3",
                            "email": "user3@example.com"
                          }
                        }
                      }
                    ]
                  }
                }
              }
            }
          }
        "#;

    let result = GitHubClient::parse_blame_lines_from_graphql_blame_result(response);
    assert!(result.is_ok());
    let vec = result.unwrap();

    assert_eq!(57, vec.len());
    let line_57 = &vec[56];
    assert_eq!("8d5445550b1948b914853fc7f210ff3622ee0c18", line_57.get_commit());
    assert_eq!("user3@example.com", line_57.get_email().clone().unwrap());
}

#[test]
pub fn test_githubclient_parse_blame_lines_from_api_graphql_blame_response_should_return_error_when_invalid_json() {
    let response = r#"
        {
            "data": {

            }
        }
"#;

    let result = GitHubClient::parse_blame_lines_from_graphql_blame_result(response);
    assert!(result.is_err());
}

#[test]
fn graphql_errors_are_reported() {
    let response = r#"{"data": {"errors": [{"message": "no"}], "repository": {"object": {"blame": {"ranges": []}}}}}"#;
    assert!(GitHubClient::parse_blame_lines_from_graphql_blame_result(response).is_err());
    let empty = r#"{"data": {"errors": null, "repository": {"object": {"blame": {"ranges": []}}}}}"#;
    assert!(GitHubClient::parse_blame_lines_from_graphql_blame_result(empty).unwrap().is_empty());
}

#[test]
fn ranges_expand_to_one_line_each() {
    let ranges = vec![
        BlameRange { starting_line: 3, ending_line: 4, commit: "c".into(), name: "N".into(), email: "e@x".into() },
        BlameRange { starting_line: 9, ending_line: 8, commit: "d".into(), name: "M".into(), email: "f@x".into() },
        BlameRange { starting_line: 1, ending_line: 1, commit: "g".into(), name: "O".into(), email: "g@x".into() },
    ];
    let lines = expand_blame_ranges(&ranges);
    let numbers: Vec<u32> = lines.iter().map(|l| l.get_line()).collect();
    assert_eq!(vec![3, 4, 1], numbers);
    assert_eq!(&Some("N".to_string()), lines[1].get_name());
    assert_eq!("g", lines[2].get_commit());
}
