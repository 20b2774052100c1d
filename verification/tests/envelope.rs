use t2sdk::biz_message::{
    c_array_len, c_array_to_string, copy_to_c_array, BizMessage, EnvelopeError, JSRouteInfo,
    RouteInfo, ID_STR_LEN, PLUGIN_NAME_LENGTH, SVRINSTANCE_NAME_LENGTH,
};
use t2sdk::def::{ANSWER_PACKET, REQUEST_PACKET};

fn route(name: &str) -> JSRouteInfo {
    JSRouteInfo {
        ospf_name: name.to_string(),
        nbr_name: String::new(),
        svr_name: "svr".to_string(),
        plugin_id: "plugin#1".to_string(),
        connect_id: 3,
        member_no: -4,
    }
}

#[test]
fn short_name_is_kept_byte_for_byte() {
    let mut dst = vec![0xffu8; 8];
    copy_to_c_array("abc", &mut dst);
    assert_eq!(dst, vec![b'a', b'b', b'c', 0, 0xff, 0xff, 0xff, 0xff]);
    assert_eq!(c_array_len(&dst), 3);
    assert_eq!(c_array_to_string(&dst), Ok("abc".to_string()));
}

#[test]
fn long_name_is_cut_and_terminated() {
    let mut dst = vec![0xffu8; 4];
    copy_to_c_array("abcdefgh", &mut dst);
    assert_eq!(dst, vec![b'a', b'b', b'c', 0]);
    let mut exact = vec![0xffu8; 4];
    copy_to_c_array("abcd", &mut exact);
    assert_eq!(exact, vec![b'a', b'b', b'c', 0]);
    let mut fits = vec![0xffu8; 4];
    copy_to_c_array("abc", &mut fits);
    assert_eq!(fits, vec![b'a', b'b', b'c', 0]);
    let mut one = vec![7u8; 1];
    copy_to_c_array("x", &mut one);
    assert_eq!(one, vec![0]);
}

#[test]
fn route_info_has_fixed_widths() {
    assert_eq!((ID_STR_LEN, SVRINSTANCE_NAME_LENGTH, PLUGIN_NAME_LENGTH), (37, 261, 261));
    let blank = RouteInfo::default();
    assert_eq!(blank.ospf_name, vec![0u8; 38]);
    assert_eq!(blank.plugin_id.len(), 262);

    let long: String = "n".repeat(100);
    let r = RouteInfo::from_js(&route(&long));
    assert_eq!(r.ospf_name.len(), 38);
    assert_eq!(r.nbr_name.len(), 38);
    assert_eq!(r.svr_name.len(), 262);
    assert_eq!(r.plugin_id.len(), 262);
    assert_eq!(&r.ospf_name[..37], "n".repeat(37).as_bytes());
    assert_eq!(r.ospf_name[37], 0);
    assert_eq!((r.connect_id, r.member_no), (3, -4));
    let back = r.to_js().unwrap();
    assert_eq!(back.ospf_name, "n".repeat(37));
    assert_eq!(back.nbr_name, "");
    assert_eq!(back.svr_name, "svr");
    assert_eq!(back.plugin_id, "plugin#1");
}

#[test]
fn array_that_is_not_text_is_refused() {
    assert_eq!(c_array_to_string(&[0xff, 0xfe, 0]), Err(EnvelopeError::InvalidText));
    assert_eq!(c_array_to_string(&[b'o', b'k']), Ok("ok".to_string()));
    assert_eq!(c_array_to_string(&[0, 0xff]), Ok(String::new()));
    let mut r = RouteInfo::default();
    r.svr_name[0] = 0xc3;
    assert!(matches!(r.to_js(), Err(EnvelopeError::InvalidText)));
}

#[test]
fn message_fields_are_set_and_read() {
    let mut m = BizMessage::new();
    assert_eq!(m.get_packet_type(), REQUEST_PACKET);
    m.set_function(1001);
    m.set_packet_type(ANSWER_PACKET);
    m.set_branch_no(2);
    m.set_system_no(3);
    m.set_sub_system_no(4);
    m.set_sender_id(5);
    m.set_packet_id(6);
    m.set_error_no(-7);
    m.set_return_code(8);
    m.set_issue_type(9);
    m.set_sequence_no(10);
    m.set_company_id(11);
    m.set_sender_company_id(12);
    m.set_internal_license(13);
    m.set_content(vec![1, 2, 3]);
    m.set_key_info(vec![4]);
    m.set_app_data(vec![5, 6]);
    m.set_app_reserved(vec![]);
    m.set_target_info(&route("target"));
    m.set_send_info(&route("sender"));
    assert_eq!(
        (m.get_function(), m.get_packet_type(), m.get_branch_no(), m.get_system_no()),
        (1001, 1, 2, 3)
    );
    assert_eq!(
        (m.get_sub_system_no(), m.get_sender_id(), m.get_packet_id(), m.get_error_no()),
        (4, 5, 6, -7)
    );
    assert_eq!(
        (m.get_return_code(), m.get_issue_type(), m.get_sequence_no(), m.get_company_id()),
        (8, 9, 10, 11)
    );
    assert_eq!((m.get_sender_company_id(), m.get_internal_license()), (12, 13));
    assert_eq!(m.get_content(), vec![1, 2, 3]);
    assert_eq!(m.get_key_info(), vec![4]);
    assert_eq!(m.get_app_data(), vec![5, 6]);
    assert_eq!(m.get_app_reserved(), Vec::<u8>::new());
    assert_eq!(m.get_target_info().unwrap().ospf_name, "target");
    assert_eq!(m.get_send_info().unwrap().ospf_name, "sender");
    m.reset();
    assert_eq!(m.get_function(), 0);
    assert_eq!(m.get_content(), Vec::<u8>::new());
    assert_eq!(m.get_target_info().unwrap().ospf_name, "");
}

#[test]
fn error_text_is_read_as_gbk() {
    let mut m = BizMessage::new();
    assert_eq!(m.get_error_info(), Ok(String::new()));
    m.error_info = vec![0xd6, 0xd0, 0xce, 0xc4];
    assert_eq!(m.get_error_info(), Ok("中文".to_string()));
    m.error_info = vec![0xd6];
    assert_eq!(m.get_error_info(), Err(EnvelopeError::InvalidText));
    assert_eq!(m.set_error_info("plain"), Ok(()));
    assert_eq!(m.get_error_info(), Ok("plain".to_string()));
    assert_eq!(m.set_error_info("a\0b"), Err(EnvelopeError::InteriorNul));
    assert_eq!(m.error_info, b"plain".to_vec());
}
