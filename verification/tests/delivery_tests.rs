use grocery_list::webhook::{plan_delivery, Delivery};

#[test]
fn test_form_deserialization() {
    let json_data = r#"{
  "action": "published",
  "package": {
    "id": 9056324,
    "name": "www",
    "namespace": "theryangeary",
    "description": "",
    "ecosystem": "CONTAINER",
    "package_type": "CONTAINER",
    "html_url": "https://github.com/theryangeary/packages/9056324",
    "created_at": "2025-09-19T19:21:05Z",
    "updated_at": "2025-11-03T13:50:26Z",
    "owner": {
      "login": "theryangeary",
      "id": 7076013,
      "node_id": "MDQ6VXNlcjcwNzYwMTM=",
      "avatar_url": "https://avatars.githubusercontent.com/u/7076013?v=4",
      "gravatar_id": "",
      "url": "https://api.github.com/users/theryangeary",
      "html_url": "https://github.com/theryangeary",
      "followers_url": "https://api.github.com/users/theryangeary/followers",
      "following_url": "https://api.github.com/users/theryangeary/following{/other_user}",
      "gists_url": "https://api.github.com/users/theryangeary/gists{/gist_id}",
      "starred_url": "https://api.github.com/users/theryangeary/starred{/owner}{/repo}",
      "subscriptions_url": "https://api.github.com/users/theryangeary/subscriptions",
      "organizations_url": "https://api.github.com/users/theryangeary/orgs",
      "repos_url": "https://api.github.com/users/theryangeary/repos",
      "events_url": "https://api.github.com/users/theryangeary/events{/privacy}",
      "received_events_url": "https://api.github.com/users/theryangeary/received_events",
      "type": "User",
      "user_view_type": "public",
      "site_admin": false
    },
    "package_version": {
      "id": 564296960,
      "version": "sha256:89160c587d0c36bf54090497a465445c14980ba48efbcf3b0d03c49b76f3feb8",
      "name": "sha256:89160c587d0c36bf54090497a465445c14980ba48efbcf3b0d03c49b76f3feb8",
      "description": "",
      "summary": "",
      "manifest": "",
      "html_url": "https://github.com/users/theryangeary/packages/container/www/564296960",
      "target_commitish": "main",
      "target_oid": "0e2a89b191332bb87b4f2fefef2f597eba2197b3",
      "created_at": "0001-01-01T00:00:00Z",
      "updated_at": "0001-01-01T00:00:00Z",
      "metadata": [

      ],
      "container_metadata": {
        "tag": {
          "name": "0e2a89b",
          "digest": "sha256:89160c587d0c36bf54090497a465445c14980ba48efbcf3b0d03c49b76f3feb8"
        },
        "labels": {
          "description": "",
          "source": "",
          "revision": "",
          "image_url": "",
          "licenses": "",
          "all_labels": {
            "github.internal.platforms": "[{\"digest\":\"sha256:e312a84da724b2de60d64c3241b69e6c89c3ce7ec82e55cd9793ddc1978008c1\",\"architecture\":\"amd64\",\"os\":\"linux\"},{\"digest\":\"sha256:184b604b46eb2c6a21d80f89471a3f562dd42a8c9d1ba45021bc9f3a4b10f0e9\",\"architecture\":\"arm64\",\"os\":\"linux\"}]"
          }
        },
        "manifest": {
          "digest": "sha256:89160c587d0c36bf54090497a465445c14980ba48efbcf3b0d03c49b76f3feb8",
          "media_type": "application/vnd.docker.distribution.manifest.list.v2+json",
          "uri": "repositories/theryangeary/www/manifests/sha256:89160c587d0c36bf54090497a465445c14980ba48efbcf3b0d03c49b76f3feb8",
          "size": 685,
          "config": {
            "digest": "",
            "media_type": "",
            "size": 0
          },
          "layers": [

          ]
        }
      },
      "package_files": [

      ],
      "author": {
        "login": "theryangeary",
        "id": 7076013,
        "node_id": "MDQ6VXNlcjcwNzYwMTM=",
        "avatar_url": "https://avatars.githubusercontent.com/u/7076013?v=4",
        "gravatar_id": "",
        "url": "https://api.github.com/users/theryangeary",
        "html_url": "https://github.com/theryangeary",
        "followers_url": "https://api.github.com/users/theryangeary/followers",
        "following_url": "https://api.github.com/users/theryangeary/following{/other_user}",
        "gists_url": "https://api.github.com/users/theryangeary/gists{/gist_id}",
        "starred_url": "https://api.github.com/users/theryangeary/starred{/owner}{/repo}",
        "subscriptions_url": "https://api.github.com/users/theryangeary/subscriptions",
        "organizations_url": "https://api.github.com/users/theryangeary/orgs",
        "repos_url": "https://api.github.com/users/theryangeary/repos",
        "events_url": "https://api.github.com/users/theryangeary/events{/privacy}",
        "received_events_url": "https://api.github.com/users/theryangeary/received_events",
        "type": "User",
        "user_view_type": "public",
        "site_admin": false
      },
      "installation_command": "docker pull ghcr.io/theryangeary/www:0e2a89b",
      "package_url": "ghcr.io/theryangeary/www:0e2a89b"
    },
    "registry": {
      "about_url": "https://docs.github.com/packages/learn-github-packages/introduction-to-github-packages",
      "name": "GitHub CONTAINER registry",
      "type": "CONTAINER",
      "url": "https://CONTAINER.pkg.github.com/theryangeary",
      "vendor": "GitHub Inc"
    }
  },
  "repository": {
    "id": 1060841726,
    "node_id": "R_kgDOPzso_g",
    "name": "www",
    "full_name": "theryangeary/www",
    "private": false,
    "owner": {
      "login": "theryangeary",
      "id": 7076013,
      "node_id": "MDQ6VXNlcjcwNzYwMTM=",
      "avatar_url": "https://avatars.githubusercontent.com/u/7076013?v=4",
      "gravatar_id": "",
      "url": "https://api.github.com/users/theryangeary",
      "html_url": "https://github.com/theryangeary",
      "followers_url": "https://api.github.com/users/theryangeary/followers",
      "following_url": "https://api.github.com/users/theryangeary/following{/other_user}",
      "gists_url": "https://api.github.com/users/theryangeary/gists{/gist_id}",
      "starred_url": "https://api.github.com/users/theryangeary/starred{/owner}{/repo}",
      "subscriptions_url": "https://api.github.com/users/theryangeary/subscriptions",
      "organizations_url": "https://api.github.com/users/theryangeary/orgs",
      "repos_url": "https://api.github.com/users/theryangeary/repos",
      "events_url": "https://api.github.com/users/theryangeary/events{/privacy}",
      "received_events_url": "https://api.github.com/users/theryangeary/received_events",
      "type": "User",
      "user_view_type": "public",
      "site_admin": false
    },
    "html_url": "https://github.com/theryangeary/www",
    "description": "www.ryangeary.dev",
    "fork": false,
    "url": "https://api.github.com/repos/theryangeary/www",
    "forks_url": "https://api.github.com/repos/theryangeary/www/forks",
    "keys_url": "https://api.github.com/repos/theryangeary/www/keys{/key_id}",
    "collaborators_url": "https://api.github.com/repos/theryangeary/www/collaborators{/collaborator}",
    "teams_url": "https://api.github.com/repos/theryangeary/www/teams",
    "hooks_url": "https://api.github.com/repos/theryangeary/www/hooks",
    "issue_events_url": "https://api.github.com/repos/theryangeary/www/issues/events{/number}",
    "events_url": "https://api.github.com/repos/theryangeary/www/events",
    "assignees_url": "https://api.github.com/repos/theryangeary/www/assignees{/user}",
    "branches_url": "https://api.github.com/repos/theryangeary/www/branches{/branch}",
    "tags_url": "https://api.github.com/repos/theryangeary/www/tags",
    "blobs_url": "https://api.github.com/repos/theryangeary/www/git/blobs{/sha}",
    "git_tags_url": "https://api.github.com/repos/theryangeary/www/git/tags{/sha}",
    "git_refs_url": "https://api.github.com/repos/theryangeary/www/git/refs{/sha}",
    "trees_url": "https://api.github.com/repos/theryangeary/www/git/trees{/sha}",
    "statuses_url": "https://api.github.com/repos/theryangeary/www/statuses/{sha}",
    "languages_url": "https://api.github.com/repos/theryangeary/www/languages",
    "stargazers_url": "https://api.github.com/repos/theryangeary/www/stargazers",
    "contributors_url": "https://api.github.com/repos/theryangeary/www/contributors",
    "subscribers_url": "https://api.github.com/repos/theryangeary/www/subscribers",
    "subscription_url": "https://api.github.com/repos/theryangeary/www/subscription",
    "commits_url": "https://api.github.com/repos/theryangeary/www/commits{/sha}",
    "git_commits_url": "https://api.github.com/repos/theryangeary/www/git/commits{/sha}",
    "comments_url": "https://api.github.com/repos/theryangeary/www/comments{/number}",
    "issue_comment_url": "https://api.github.com/repos/theryangeary/www/issues/comments{/number}",
    "contents_url": "https://api.github.com/repos/theryangeary/www/contents/{+path}",
    "compare_url": "https://api.github.com/repos/theryangeary/www/compare/{base}...{head}",
    "merges_url": "https://api.github.com/repos/theryangeary/www/merges",
    "archive_url": "https://api.github.com/repos/theryangeary/www/{archive_format}{/ref}",
    "downloads_url": "https://api.github.com/repos/theryangeary/www/downloads",
    "issues_url": "https://api.github.com/repos/theryangeary/www/issues{/number}",
    "pulls_url": "https://api.github.com/repos/theryangeary/www/pulls{/number}",
    "milestones_url": "https://api.github.com/repos/theryangeary/www/milestones{/number}",
    "notifications_url": "https://api.github.com/repos/theryangeary/www/notifications{?since,all,participating}",
    "labels_url": "https://api.github.com/repos/theryangeary/www/labels{/name}",
    "releases_url": "https://api.github.com/repos/theryangeary/www/releases{/id}",
    "deployments_url": "https://api.github.com/repos/theryangeary/www/deployments",
    "created_at": "2025-09-20T17:47:10Z",
    "updated_at": "2025-11-03T13:47:26Z",
    "pushed_at": "2025-11-03T13:47:22Z",
    "git_url": "git://github.com/theryangeary/www.git",
    "ssh_url": "git@github.com:theryangeary/www.git",
    "clone_url": "https://github.com/theryangeary/www.git",
    "svn_url": "https://github.com/theryangeary/www",
    "homepage": null,
    "size": 226,
    "stargazers_count": 0,
    "watchers_count": 0,
    "language": "Rust",
    "has_issues": true,
    "has_projects": true,
    "has_downloads": true,
    "has_wiki": true,
    "has_pages": false,
    "has_discussions": false,
    "forks_count": 0,
    "mirror_url": null,
    "archived": false,
    "disabled": false,
    "open_issues_count": 0,
    "license": null,
    "allow_forking": true,
    "is_template": false,
    "web_commit_signoff_required": false,
    "topics": [

    ],
    "visibility": "public",
    "forks": 0,
    "open_issues": 0,
    "watchers": 0,
    "default_branch": "main"
  },
  "sender": {
    "login": "theryangeary",
    "id": 7076013,
    "node_id": "MDQ6VXNlcjcwNzYwMTM=",
    "avatar_url": "https://avatars.githubusercontent.com/u/7076013?v=4",
    "gravatar_id": "",
    "url": "https://api.github.com/users/theryangeary",
    "html_url": "https://github.com/theryangeary",
    "followers_url": "https://api.github.com/users/theryangeary/followers",
    "following_url": "https://api.github.com/users/theryangeary/following{/other_user}",
    "gists_url": "https://api.github.com/users/theryangeary/gists{/gist_id}",
    "starred_url": "https://api.github.com/users/theryangeary/starred{/owner}{/repo}",
    "subscriptions_url": "https://api.github.com/users/theryangeary/subscriptions",
    "organizations_url": "https://api.github.com/users/theryangeary/orgs",
    "repos_url": "https://api.github.com/users/theryangeary/repos",
    "events_url": "https://api.github.com/users/theryangeary/events{/privacy}",
    "received_events_url": "https://api.github.com/users/theryangeary/received_events",
    "type": "User",
    "user_view_type": "public",
    "site_admin": false
  }
}"#;

    let payload: serde_json::Value =
        serde_json::from_str(json_data).expect("Failed to deserialize WebhookPayload");
    let full_name = payload["repository"]["full_name"].as_str().unwrap();
    assert_eq!(full_name, "theryangeary/www");
    let tag = payload["package"]["package_version"]["container_metadata"]["tag"]["name"]
        .as_str()
        .unwrap();
    assert_eq!(tag, "0e2a89b");
    assert_eq!(
        plan_delivery(true, "package", full_name, Some(tag)),
        Delivery::Update {
            image: "ghcr.io/theryangeary/www:0e2a89b".to_string(),
            service: "homelab_www".to_string(),
        }
    );
}
