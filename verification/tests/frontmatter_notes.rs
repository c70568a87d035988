use zrt::frontmatter::{contains_tag_in, has_only_tag_in, parse_frontmatter, FrontmatterError};

#[test]
fn test_parse_frontmatter_empty_file() {
    let content = "";
    let result = parse_frontmatter(content).unwrap();
    assert!(result.tags.is_none());
}

#[test]
fn test_parse_frontmatter_no_delimiter() {
    let content = "Some content without frontmatter";
    let result = parse_frontmatter(content).unwrap();
    assert!(result.tags.is_none());
}

#[test]
fn test_parse_frontmatter_with_tags() {
    let content = "---
tags:
  - tag1
  - tag2
---
Content here";
    let result = parse_frontmatter(content).unwrap();
    assert_eq!(result.tags.unwrap(), vec!["tag1", "tag2"]);
}

#[test]
fn test_parse_frontmatter_inline_tag_list() {
    let content = "---\ntags: [refactored, reviewed]\n---\nContent";
    let result = parse_frontmatter(content).unwrap();
    assert_eq!(result.tags.unwrap(), vec!["refactored", "reviewed"]);
}

#[test]
fn test_parse_frontmatter_without_tags_key() {
    let content = "---\ntitle: a note\n---\nContent";
    let result = parse_frontmatter(content).unwrap();
    assert!(result.tags.is_none());
}

#[test]
fn test_parse_frontmatter_bad_yaml_is_error() {
    let content = "---\ntags: [unclosed\n---\nContent";
    let err = parse_frontmatter(content).unwrap_err();
    assert_eq!(err, FrontmatterError::InvalidYaml);
}

#[test]
fn test_parse_frontmatter_empty_block() {
    let fenced = parse_frontmatter("---\n---\nContent").unwrap();
    assert!(fenced.tags.is_none());
    let unclosed = parse_frontmatter("---").unwrap();
    assert!(unclosed.tags.is_none());
}

#[test]
fn test_contains_tag_in_content() {
    let content = "---\ntags:\n  - test_tag\n---\nContent";
    assert!(contains_tag_in(content, "test_tag"));
    assert!(!contains_tag_in(content, "other_tag"));
}

#[test]
fn test_contains_tag_in_content_without_tags() {
    let content = "Just content, no frontmatter";
    assert!(!contains_tag_in(content, "test_tag"));
}

#[test]
fn test_has_only_tag_in_content() {
    let single = "---\ntags: [refactored]\n---\nContent";
    let multi = "---\ntags: [refactored, reviewed]\n---\nContent";
    let none = "Just content, no frontmatter";
    assert!(has_only_tag_in(single, "refactored"));
    assert!(!has_only_tag_in(multi, "refactored"));
    assert!(!has_only_tag_in(none, "refactored"));
}
