use rstock::feishu::{FeishuNotifier, FeishuPostMessage, FeishuPostWebhookMessage};

#[test]
fn post_message_keeps_title_and_lines() {
    let post = FeishuPostMessage::new("scan".to_string(), vec!["hello".to_string(), "world".to_string()]);
    assert_eq!(post.title(), "scan");
    assert_eq!(post.line_count(), 2);
}

#[test]
fn webhook_body_has_post_type_title_and_one_text_per_line() {
    let post = FeishuPostMessage::new(
        "scan result".to_string(),
        vec!["line one".to_string(), "line two".to_string()],
    );
    let body = FeishuPostWebhookMessage::new(post);
    assert_eq!(body.msg_type, "post");
    assert_eq!(body.content.post.zh_cn.title, "scan result");
    let content = &body.content.post.zh_cn.content;
    assert_eq!(content.len(), 2);
    assert_eq!(content[0].len(), 1);
    assert_eq!(content[0][0].tag, "text");
    assert_eq!(content[0][0].text, "line one");
    assert_eq!(content[1][0].text, "line two");
}

#[test]
fn notifier_without_token_is_disabled() {
    let n = FeishuNotifier::new(None);
    assert!(!n.is_enabled());
    assert_eq!(n.webhook_url(), None);
}

#[test]
fn webhook_url_appends_token_to_base() {
    let n = FeishuNotifier::new(Some("tok".to_string()));
    assert!(n.is_enabled());
    assert_eq!(
        n.webhook_url().as_deref(),
        Some("https://open.feishu.cn/open-apis/bot/v2/hook/tok")
    );
    let n = FeishuNotifier::with_webhook_base(Some("test-token".into()), "http://127.0.0.1:9//".into());
    assert_eq!(n.webhook_url().as_deref(), Some("http://127.0.0.1:9/test-token"));
}
