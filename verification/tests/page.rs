use pocky::metadata::{DecodeError, FlatDecoder, MetadataDecoder, StringMap, YamlDecoder};
use pocky::{AsHtml, MarkdownPage, PageError, TextPage};
use std::fmt;

type BasicMarkdownPage = MarkdownPage<StringMap>;

struct TitleMetadata {
    pub title: String,
}

struct TitleVisitor;

impl<'de> serde::de::Visitor<'de> for TitleVisitor {
    type Value = TitleMetadata;

    fn expecting(&self, formatter: &mut fmt::Formatter) -> fmt::Result {
        formatter.write_str("a mapping with a title")
    }

    fn visit_map<A>(self, mut map: A) -> Result<TitleMetadata, A::Error>
    where
        A: serde::de::MapAccess<'de>,
    {
        let mut title = None;
        while let Some(key) = map.next_key::<String>()? {
            if key == "title" {
                title = Some(map.next_value::<String>()?);
            } else {
                map.next_value::<serde::de::IgnoredAny>()?;
            }
        }
        match title {
            Some(title) => Ok(TitleMetadata { title }),
            None => Err(serde::de::Error::missing_field("title")),
        }
    }
}

impl<'de> serde::Deserialize<'de> for TitleMetadata {
    fn deserialize<D>(deserializer: D) -> Result<Self, D::Error>
    where
        D: serde::Deserializer<'de>,
    {
        deserializer.deserialize_map(TitleVisitor)
    }
}

/// Decodes a title record from YAML.
struct TitleDecoder;

impl MetadataDecoder for TitleDecoder {
    type Metadata = TitleMetadata;

    fn decode(&self, raw: &str) -> Result<TitleMetadata, DecodeError> {
        serde_yaml::from_str(raw).map_err(|error| DecodeError::InvalidYaml(error.to_string()))
    }
}

#[test]
fn no_frontmatter() {
    let page = BasicMarkdownPage::parse("# Hello, friend!\n".to_string(), &YamlDecoder).unwrap();

    assert!(page.metadata.is_none());
    assert_eq!(page.content, "<h1>Hello, friend!</h1>\n");
}

#[test]
fn with_frontmatter() {
    let page = BasicMarkdownPage::parse(
        "
---
title: Cool video games
---
# Hello, friend!"
            .to_string(),
        &YamlDecoder,
    )
    .unwrap();

    assert_eq!(page.metadata.unwrap().get("title"), Some(&"Cool video games".to_string()));
    assert_eq!(page.content, "<h1>Hello, friend!</h1>\n");
}

#[test]
fn with_frontmatter_deserialize() {
    let page = MarkdownPage::<TitleMetadata>::parse(
        "
---
title: Cool video games
---
# Hello, friend!"
            .to_string(),
        &TitleDecoder,
    )
    .unwrap();

    assert_eq!(page.metadata.unwrap().title, "Cool video games".to_string());
    assert_eq!(page.content, "<h1>Hello, friend!</h1>\n");
}

#[test]
fn with_frontmatter_flat() {
    let page = BasicMarkdownPage::parse(
        "\n---\ntitle: Cool video games\n---\n# Hello, friend!".to_string(),
        &FlatDecoder,
    )
    .unwrap();

    let metadata = page.metadata.unwrap();
    assert_eq!(metadata.len(), 1);
    assert_eq!(metadata.get("title"), Some(&"Cool video games".to_string()));
    assert_eq!(page.content, "<h1>Hello, friend!</h1>\n");
}

#[test]
fn no_frontmatter_flat() {
    let page = BasicMarkdownPage::parse("# Hello, friend!\n".to_string(), &FlatDecoder).unwrap();

    assert!(page.metadata.is_none());
    assert_eq!(page.content, "<h1>Hello, friend!</h1>\n");
}

#[test]
fn unclosed_frontmatter_fails() {
    let page = BasicMarkdownPage::parse("---\ntitle: a\n# Hello".to_string(), &FlatDecoder);
    assert_eq!(page.err(), Some(PageError::MalformedFrontmatter));
    let page = TextPage::<StringMap>::parse("---\ntitle: a\n# Hello".to_string(), &YamlDecoder);
    assert_eq!(page.err(), Some(PageError::MalformedFrontmatter));
}

#[test]
fn decoder_error_is_passed_on() {
    let page = BasicMarkdownPage::parse("---\ntitle\n---\n# Hello".to_string(), &FlatDecoder);
    assert_eq!(page.err(), Some(PageError::Metadata(DecodeError::MissingSeparator(0))));
    let page = MarkdownPage::<TitleMetadata>::parse(
        "---\nname: a\n---\n# Hello".to_string(),
        &TitleDecoder,
    );
    assert_eq!(
        page.err(),
        Some(PageError::Metadata(DecodeError::InvalidYaml("missing field `title`".to_string())))
    );
    let page = TextPage::<StringMap>::parse("---\n- a\n---\ntext".to_string(), &YamlDecoder);
    assert!(matches!(page.err(), Some(PageError::Metadata(DecodeError::InvalidYaml(_)))));
}

#[test]
fn decoder_is_not_asked_without_frontmatter() {
    let page = BasicMarkdownPage::parse("title\n---\n".to_string(), &FlatDecoder).unwrap();
    assert!(page.metadata.is_none());
    assert_eq!(page.content, "<h2>title</h2>\n");
}

#[test]
fn body_is_rendered_with_the_page_extensions() {
    let page = BasicMarkdownPage::parse(
        "---\na: b\n---\n~~old~~\n\n- [ ] open\n".to_string(),
        &FlatDecoder,
    )
    .unwrap();
    assert_eq!(
        page.content,
        "<p><del>old</del></p>\n<ul>\n<li><input disabled=\"\" type=\"checkbox\"/>\nopen</li>\n</ul>\n"
    );
}

#[test]
fn markdown_page_as_html_is_its_content() {
    let page = BasicMarkdownPage::parse("some *text*".to_string(), &FlatDecoder).unwrap();
    assert_eq!(page.as_html(), "<p>some <em>text</em></p>\n");
    assert_eq!(page.as_html(), page.content);
}

#[test]
fn text_page_keeps_the_body() {
    let page = TextPage::<StringMap>::parse(
        "\n\n---\ntitle: Notes\n---\n# not a heading\n\nplain *text*".to_string(),
        &FlatDecoder,
    )
    .unwrap();
    assert_eq!(page.metadata.unwrap().get("title"), Some(&"Notes".to_string()));
    assert_eq!(page.content, "# not a heading\n\nplain *text*\n");
}

#[test]
fn text_page_without_frontmatter() {
    let page = TextPage::<StringMap>::parse("\n\nfirst\r\nsecond".to_string(), &YamlDecoder);
    let page = page.unwrap();
    assert!(page.metadata.is_none());
    assert_eq!(page.content, "first\nsecond\n");
}

#[test]
fn text_page_with_a_record() {
    let page = TextPage::<TitleMetadata>::parse(
        "---\ntitle: Cool video games\nyear: 1999\n---\ntext".to_string(),
        &TitleDecoder,
    )
    .unwrap();
    assert_eq!(page.metadata.unwrap().title, "Cool video games");
    assert_eq!(page.content, "text\n");
}
