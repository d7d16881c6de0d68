use smugprobe::payloads::Mutation;

fn split_raw(raw: &str) -> (String, String) {
    let mut parts = raw.splitn(2, "\r\n\r\n");
    let head = parts.next().unwrap().to_string();
    let body = parts.next().unwrap().to_string();
    (head, body)
}

fn header_value(head: &str, name: &str) -> Option<String> {
    for line in head.split("\r\n").skip(1) {
        let mut kv = line.splitn(2, ": ");
        if kv.next() == Some(name) {
            return kv.next().map(|v| v.to_string());
        }
    }
    None
}

#[test]
fn produces_the_two_named_mutations_in_order() {
    let ms = Mutation::new_default_mutation(
        &"POST".to_string(),
        &"victim.test".to_string(),
        &"/".to_string(),
    );
    assert_eq!(ms.len(), 2);
    assert_eq!(ms[0].name, "CL.TE");
    assert_eq!(ms[1].name, "TE.CL");
}

#[test]
fn request_line_and_headers_are_rendered() {
    let ms = Mutation::new_default_mutation(
        &"POST".to_string(),
        &"victim.test".to_string(),
        &"/login".to_string(),
    );
    let raw = ms[0].raw_format();
    assert!(raw.starts_with("POST /login HTTP/1.1\r\n"));
    let (head, _) = split_raw(&raw);
    assert_eq!(header_value(&head, "Host").as_deref(), Some("victim.test"));
    assert_eq!(header_value(&head, "Transfer-Encoding").as_deref(), Some("chunked"));
    assert!(header_value(&head, "User-Agent").unwrap().starts_with("Mozilla/5.0"));
    assert_eq!(
        header_value(&head, "Content-type").as_deref(),
        Some("application/x-www-form-urlencoded; charset=UTF-8")
    );
}

#[test]
fn cl_te_content_length_matches_its_own_body() {
    let ms = Mutation::new_default_mutation(
        &"POST".to_string(),
        &"victim.test".to_string(),
        &"/".to_string(),
    );
    let raw = ms[0].raw_format();
    let (head, body) = split_raw(&raw);
    let cl: usize = header_value(&head, "Content-Length").unwrap().parse().unwrap();
    assert_eq!(cl, body.as_bytes().len());
    assert_eq!(cl, 22);
    assert!(body.starts_with("0\r\n\r\n"));
    assert!(body.ends_with(' '));
}

#[test]
fn te_cl_content_length_is_literal_five() {
    let ms = Mutation::new_default_mutation(
        &"POST".to_string(),
        &"victim.test".to_string(),
        &"/".to_string(),
    );
    let raw = ms[1].raw_format();
    let (head, body) = split_raw(&raw);
    assert_eq!(header_value(&head, "Content-Length").as_deref(), Some("5"));
    assert!(body.starts_with("5\r\nHELLO\r\n0\r\n\r\n"));
    assert_eq!(body.as_bytes().len(), 32);
    assert_ne!(body.as_bytes().len(), 5);
}

#[test]
fn filler_is_sixteen_alphanumeric_characters() {
    let ms = Mutation::new_default_mutation(
        &"POST".to_string(),
        &"victim.test".to_string(),
        &"/".to_string(),
    );
    let raw = ms[0].raw_format();
    let (_, body) = split_raw(&raw);
    let filler = &body[5..body.len() - 1];
    assert_eq!(filler.len(), 16);
    assert!(filler.chars().all(|c| c.is_ascii_alphanumeric()));
}

#[test]
fn serialization_is_deterministic_except_for_the_filler() {
    let method = "GET".to_string();
    let host = "victim.test".to_string();
    let path = "/x".to_string();
    let a = Mutation::new_default_mutation(&method, &host, &path);
    let b = Mutation::new_default_mutation(&method, &host, &path);
    for k in 0..2 {
        let ra = a[k].raw_format();
        let rb = b[k].raw_format();
        assert_eq!(ra.len(), rb.len());
        let (ha, ba) = split_raw(&ra);
        let (hb, bb) = split_raw(&rb);
        assert_eq!(ha, hb);
        // bodies agree everywhere but in the sixteen filler characters
        let fa = ba.len() - 17;
        assert_eq!(ba[..fa], bb[..fa]);
        assert_eq!(ba[ba.len() - 1..], bb[bb.len() - 1..]);
    }
}
