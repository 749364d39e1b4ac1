use std::cell::RefCell;

use html5ever::tokenizer::{
    BufferQueue, Tag, TagKind, Token, TokenSink, TokenSinkResult, Tokenizer, TokenizerOpts,
};

use vert::scrape::VersionSink;
use vert::version::Version;

struct CollectSink {
    sink: RefCell<VersionSink>,
}

impl TokenSink for CollectSink {
    type Handle = ();

    fn process_token(&self, token: Token, _line_number: u64) -> TokenSinkResult<()> {
        if let Token::TagToken(Tag {
            kind: TagKind::StartTag,
            name,
            attrs,
            ..
        }) = token
        {
            if &*name == "a" {
                for attr in &attrs {
                    if &*attr.name.local == "href" {
                        self.sink.borrow_mut().offer(attr.value.as_ref());
                    }
                }
            }
        }
        TokenSinkResult::Continue
    }
}

fn scrape(html: &str) -> Option<Version> {
    let input = BufferQueue::default();
    input.push_back(html.into());
    let tok = Tokenizer::new(
        CollectSink {
            sink: RefCell::new(VersionSink::new()),
        },
        TokenizerOpts::default(),
    );
    let _ = tok.feed(&input);
    tok.end();
    tok.sink.sink.into_inner().into_best()
}

#[test]
fn test_parse_html() {
    let html = r#"<html>
<head><title>Index of /dist/</title></head>
<body>
<h1>Index of /dist/</h1><hr><pre><a href="../">../</a>
<a href="README">README</a>                                             12-Jun-2022 20:55                7893
<a href="SHA256">SHA256</a>                                             12-Jun-2022 20:57               13753
<a href="SHA256.sig">SHA256.sig</a>                                         12-Jun-2022 20:58                 566
<a href="sudo-1.8.0.tar.gz">sudo-1.8.0.tar.gz</a>                                  25-Feb-2011 19:58             1209024
<a href="sudo-1.8.0.tar.gz.sig">sudo-1.8.0.tar.gz.sig</a>                              04-Dec-2017 22:45                 543
<a href="sudo-1.8.1.tar.gz">sudo-1.8.1.tar.gz</a>                                  09-Apr-2011 15:17             1238495
<a href="sudo-1.8.1.tar.gz.sig">sudo-1.8.1.tar.gz.sig</a>                              04-Dec-2017 22:45                 543
<a href="sudo-1.8.10.tar.gz">sudo-1.8.10.tar.gz</a>                                 10-Mar-2014 12:35             2259801
<a href="sudo-1.8.10.tar.gz.sig">sudo-1.8.10.tar.gz.sig</a>                             04-Dec-2017 22:45                 543
<a href="sudo-1.8.10p1.patch.gz">sudo-1.8.10p1.patch.gz</a>                             13-Mar-2014 21:22                4879
<a href="sudo-1.8.10p1.patch.gz.sig">sudo-1.8.10p1.patch.gz.sig</a>                         04-Dec-2017 22:45                 543
<a href="sudo-1.8.10p1.tar.gz">sudo-1.8.10p1.tar.gz</a>                               13-Mar-2014 21:20             2260994
<a href="sudo-1.8.10p1.tar.gz.sig">sudo-1.8.10p1.tar.gz.sig</a>                           04-Dec-2017 22:45                 543
<a href="sudo-1.8.10p2.patch.gz">sudo-1.8.10p2.patch.gz</a>                             17-Mar-2014 14:33                2692
</body></html>
"#;
    let v = scrape(html);
    assert_eq!(v, Some(Version::new(vec![1, 8, 10])));
}

#[test]
fn scraping_markup_without_versions_finds_none() {
    let html = r#"<html><body><a href="../">up</a><a href="README">docs</a><p>1.2.3 in text only</p></body></html>"#;
    assert_eq!(scrape(html), None);
}
