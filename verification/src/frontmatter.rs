//! The frontmatter block at the top of a post.
//!
//! A post starts with a `---` marker, three `key: value` lines (title,
//! description, tags, in that order) and a second `---` marker; the rest
//! of the text is the post body.

use vstd::prelude::*;
use vstd::string::StrSliceExecFns;

use crate::text;

verus! {

/// Failure while reading the frontmatter block, one case per layout
/// fault.
#[derive(Debug)]
pub enum FrontmatterParsingError {
    /// The text does not start with the `---` marker.
    MissingDivider,
    /// No second `---` marker closes the block.
    MissingSecondDivider,
    /// A frontmatter line has no `:` separator.
    InvalidLineFormat,
    /// A line is present but its key is not the one expected at that
    /// position; the payload names the expected key.
    IncorrectLinePosition(&'static str),
    /// The block ends before the title line.
    MissingTitle,
    /// The block ends before the description line.
    MissingDescription,
    /// The block ends before the tags line.
    MissingTags,
    /// The tags value is not wrapped in `[` and `]`.
    BadTagsFormat,
}

/// The spec-level shape of a [`FrontmatterParsingError`], with the
/// expected key carried as a character sequence.
pub enum FmErr {
    MissingDivider,
    MissingSecondDivider,
    InvalidLineFormat,
    IncorrectLinePosition(Seq<char>),
    MissingTitle,
    MissingDescription,
    MissingTags,
    BadTagsFormat,
}

impl FrontmatterParsingError {
    /// The spec-level shape of this error.
    pub open spec fn model(&self) -> FmErr {
        match self {
            FrontmatterParsingError::MissingDivider => FmErr::MissingDivider,
            FrontmatterParsingError::MissingSecondDivider => FmErr::MissingSecondDivider,
            FrontmatterParsingError::InvalidLineFormat => FmErr::InvalidLineFormat,
            FrontmatterParsingError::IncorrectLinePosition(k) => FmErr::IncorrectLinePosition(k@),
            FrontmatterParsingError::MissingTitle => FmErr::MissingTitle,
            FrontmatterParsingError::MissingDescription => FmErr::MissingDescription,
            FrontmatterParsingError::MissingTags => FmErr::MissingTags,
            FrontmatterParsingError::BadTagsFormat => FmErr::BadTagsFormat,
        }
    }
}

/// The comma-separated pieces of `s`, each trimmed.  An empty text is a
/// single empty piece.
pub open spec fn spec_split_trim(s: Seq<char>) -> Seq<Seq<char>>
    decreases s.len(),
{
    match text::spec_find(s, seq![',']) {
        None => seq![text::spec_trim(s)],
        Some(i) => {
            proof {
                text::lemma_find_first(s, seq![',']);
            }
            seq![text::spec_trim(s.subrange(0, i))] + spec_split_trim(
                s.subrange(i + 1, s.len() as int),
            )
        },
    }
}

/// What the tags value parses to: the text must be wrapped in `[` and
/// `]`, and the interior is split on commas with each piece trimmed.
/// Order and duplicates are preserved, and an empty interior is one
/// empty tag.
pub open spec fn spec_parse_tags(s: Seq<char>) -> Option<Seq<Seq<char>>> {
    if s.len() >= 1 && s[0] == '[' {
        let t = s.drop_first();
        if t.len() >= 1 && t.last() == ']' {
            Some(spec_split_trim(t.drop_last()))
        } else {
            None
        }
    } else {
        None
    }
}

/// Reads the bracketed comma-separated tags value.
fn parse_tags(tags: &str) -> (r: Result<Vec<String>, FrontmatterParsingError>)
    ensures
        r matches Ok(v) ==> (spec_parse_tags(tags@) matches Some(m) && v.deep_view() == m),
        r matches Err(e) ==> spec_parse_tags(tags@) is None && e.model() == FmErr::BadTagsFormat,
{
    proof {
        reveal_strlit("[");
        reveal_strlit("]");
        reveal_strlit(",");
        assert("["@ =~= seq!['[']);
        assert("]"@ =~= seq![']']);
        assert(","@ =~= seq![',']);
    }
    let t = match text::strip_prefix_str(tags, "[") {
        Some(t) => t,
        None => {
            proof {
                if tags@.len() >= 1 && tags@[0] == '[' {
                    assert(tags@.subrange(0, 1) =~= "["@);
                }
            }
            return Err(FrontmatterParsingError::BadTagsFormat);
        },
    };
    proof {
        assert(t@ =~= tags@.drop_first());
        assert(tags@.subrange(0, 1)[0] == tags@[0]);
    }
    let inner = match text::strip_suffix_str(t, "]") {
        Some(inner) => inner,
        None => {
            proof {
                if t@.len() >= 1 && t@.last() == ']' {
                    assert(t@.subrange(t@.len() - 1, t@.len() as int) =~= "]"@);
                }
            }
            return Err(FrontmatterParsingError::BadTagsFormat);
        },
    };
    proof {
        assert(inner@ =~= t@.drop_last());
        assert(t@.subrange(t@.len() - 1, t@.len() as int)[0] == t@.last());
    }
    let mut rest: &str = inner;
    let mut out: Vec<String> = Vec::new();
    proof {
        assert(out.deep_view() + spec_split_trim(rest@) =~= spec_split_trim(inner@));
    }
    loop
        invariant_except_break
            spec_split_trim(inner@) == out.deep_view() + spec_split_trim(rest@),
        ensures
            spec_split_trim(inner@) == out.deep_view(),
        decreases rest@.len(),
    {
        match text::split_once_at(rest, ",") {
            Some((piece, r2)) => {
                let ghost old_out = out;
                proof {
                    reveal_strlit(",");
                    assert(","@ =~= seq![',']);
                    text::lemma_find_first(rest@, ","@);
                    let vs = spec_split_trim(r2@);
                    assert((old_out.deep_view() + (seq![text::spec_trim(piece@)] + vs)) =~= ((
                    old_out.deep_view() + seq![text::spec_trim(piece@)]) + vs));
                }
                out.push(text::trim(piece).to_owned());
                proof {
                    assert(out.deep_view() =~= old_out.deep_view() + seq![
                        text::spec_trim(piece@),
                    ]);
                }
                rest = r2;
            },
            None => {
                proof {
                    reveal_strlit(",");
                    assert(","@ =~= seq![',']);
                }
                let ghost old_out = out;
                out.push(text::trim(rest).to_owned());
                proof {
                    assert(out.deep_view() =~= old_out.deep_view() + seq![
                        text::spec_trim(rest@),
                    ]);
                }
                break;
            },
        }
    }
    Ok(out)
}

/// What one `key: value` line parses to: the line is split at its first
/// `:`, the key part is trimmed and must equal the expected key, and
/// the trimmed value part is the result.
pub open spec fn spec_parse_line(line: Seq<char>, key: Seq<char>) -> Result<Seq<char>, FmErr> {
    match text::spec_find(line, seq![':']) {
        None => Err(FmErr::InvalidLineFormat),
        Some(i) => {
            if text::spec_trim(line.subrange(0, i)) == key {
                Ok(text::spec_trim(line.subrange(i + 1, line.len() as int)))
            } else {
                Err(FmErr::IncorrectLinePosition(key))
            }
        },
    }
}

/// Reads one `key: value` line, checking the key.
fn parse_line<'a>(line: &'a str, expected_key: &'static str) -> (r: Result<
    &'a str,
    FrontmatterParsingError,
>)
    ensures
        r matches Ok(v) ==> (spec_parse_line(line@, expected_key@) matches Ok(m) && v@ == m),
        r matches Err(e) ==> (spec_parse_line(line@, expected_key@) matches Err(k) && e.model()
            == k),
{
    proof {
        reveal_strlit(":");
        assert(":"@ =~= seq![':']);
    }
    let (key_part, value_part) = match text::split_once_at(line, ":") {
        Some(p) => p,
        None => {
            return Err(FrontmatterParsingError::InvalidLineFormat);
        },
    };
    if !text::str_eq(text::trim(key_part), expected_key) {
        return Err(FrontmatterParsingError::IncorrectLinePosition(expected_key));
    }
    Ok(text::trim(value_part))
}

/// The spec-level value of a frontmatter block.
pub struct FmModel {
    pub title: Seq<char>,
    pub description: Seq<char>,
    pub tags: Seq<Seq<char>>,
}

/// What a whole post parses to: the body after the second `---` marker
/// together with the three frontmatter fields, or the first fault.
pub open spec fn spec_frontmatter(post: Seq<char>) -> Result<(Seq<char>, FmModel), FmErr> {
    if !text::spec_starts_with(post, "---"@) {
        Err(FmErr::MissingDivider)
    } else {
        let after = post.subrange("---"@.len() as int, post.len() as int);
        match text::spec_find(after, "---"@) {
            None => Err(FmErr::MissingSecondDivider),
            Some(i) => {
                let fm = text::spec_trim(after.subrange(0, i));
                let body = after.subrange(i + "---"@.len(), after.len() as int);
                if fm.len() == 0 {
                    Err(FmErr::MissingTitle)
                } else {
                    let (l1, r1) = text::spec_line_split(fm);
                    match spec_parse_line(l1, "title"@) {
                        Err(e) => Err(e),
                        Ok(title) => {
                            if r1.len() == 0 {
                                Err(FmErr::MissingDescription)
                            } else {
                                let (l2, r2) = text::spec_line_split(r1);
                                match spec_parse_line(l2, "description"@) {
                                    Err(e) => Err(e),
                                    Ok(description) => {
                                        if r2.len() == 0 {
                                            Err(FmErr::MissingTags)
                                        } else {
                                            let (l3, _r3) = text::spec_line_split(r2);
                                            match spec_parse_line(l3, "tags"@) {
                                                Err(e) => Err(e),
                                                Ok(tags_text) => match spec_parse_tags(
                                                    tags_text,
                                                ) {
                                                    None => Err(FmErr::BadTagsFormat),
                                                    Some(tags) => Ok(
                                                        (
                                                            body,
                                                            FmModel { title, description, tags },
                                                        ),
                                                    ),
                                                },
                                            }
                                        }
                                    },
                                }
                            }
                        },
                    }
                }
            },
        }
    }
}

/// The metadata block at the top of a post: a title, a description and
/// an ordered list of tags.
#[derive(Debug)]
pub struct Frontmatter {
    pub title: String,
    pub description: String,
    pub tags: Vec<String>,
}

impl Frontmatter {
    /// Splits a post into its frontmatter and its body.
    ///
    /// The text must start with `---`; everything up to the next `---`
    /// is the frontmatter block, which after trimming must hold a
    /// `title:` line, a `description:` line and a `tags: [...]` line in
    /// that order.  Lines past the third are ignored.  The text after
    /// the second marker is returned as the body.
    pub fn parse<'a>(post: &'a str) -> (r: Result<
        (&'a str, Frontmatter),
        FrontmatterParsingError,
    >)
        ensures
            r matches Ok(p) ==> (spec_frontmatter(post@) matches Ok(m) && p.0@ == m.0
                && p.1.title@ == m.1.title && p.1.description@ == m.1.description
                && p.1.tags.deep_view() == m.1.tags),
            r matches Err(e) ==> (spec_frontmatter(post@) matches Err(k) && e.model() == k),
    {
        let after = match text::strip_prefix_str(post, "---") {
            Some(t) => t,
            None => {
                return Err(FrontmatterParsingError::MissingDivider);
            },
        };
        let (fm_raw, body) = match text::split_once_at(after, "---") {
            Some(p) => p,
            None => {
                return Err(FrontmatterParsingError::MissingSecondDivider);
            },
        };
        let fm = text::trim(fm_raw);
        if fm.unicode_len() == 0 {
            return Err(FrontmatterParsingError::MissingTitle);
        }
        let (l1, r1) = text::line_split(fm);
        let title = match parse_line(l1, "title") {
            Ok(v) => v,
            Err(e) => {
                return Err(e);
            },
        };
        if r1.unicode_len() == 0 {
            return Err(FrontmatterParsingError::MissingDescription);
        }
        let (l2, r2) = text::line_split(r1);
        let description = match parse_line(l2, "description") {
            Ok(v) => v,
            Err(e) => {
                return Err(e);
            },
        };
        if r2.unicode_len() == 0 {
            return Err(FrontmatterParsingError::MissingTags);
        }
        let (l3, _r3) = text::line_split(r2);
        let tags_text = match parse_line(l3, "tags") {
            Ok(v) => v,
            Err(e) => {
                return Err(e);
            },
        };
        let tags = match parse_tags(tags_text) {
            Ok(v) => v,
            Err(e) => {
                return Err(e);
            },
        };
        Ok((
            body,
            Frontmatter { title: title.to_owned(), description: description.to_owned(), tags },
        ))
    }
}

} // verus!
