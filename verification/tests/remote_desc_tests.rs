use rjrssync::remote_desc::{RemoteFolderDesc, RemotePathDesc};

#[test]
fn parse_remote_folder_desc() {
    // There's some quirks here with windows paths containing colons for drive letters

    assert_eq!(
        RemoteFolderDesc::from_str(""),
        Err("Folder must be specified".to_string())
    );
    assert_eq!(
        RemoteFolderDesc::from_str("f"),
        Ok(RemoteFolderDesc {
            folder: "f".to_string(),
            ..Default::default()
        })
    );
    assert_eq!(
        RemoteFolderDesc::from_str("h:f"),
        Ok(RemoteFolderDesc {
            folder: "f".to_string(),
            hostname: "h".to_string(),
            username: "".to_string()
        })
    );
    assert_eq!(
        RemoteFolderDesc::from_str("hh:"),
        Err("Folder must be specified".to_string())
    );
    assert_eq!(
        RemoteFolderDesc::from_str(":f"),
        Err("Missing hostname".to_string())
    );
    assert_eq!(
        RemoteFolderDesc::from_str(":"),
        Err("Missing hostname".to_string())
    );
    assert_eq!(
        RemoteFolderDesc::from_str("@"),
        Ok(RemoteFolderDesc {
            folder: "@".to_string(),
            ..Default::default()
        })
    );

    assert_eq!(
        RemoteFolderDesc::from_str("u@h:f"),
        Ok(RemoteFolderDesc {
            folder: "f".to_string(),
            hostname: "h".to_string(),
            username: "u".to_string()
        })
    );
    assert_eq!(
        RemoteFolderDesc::from_str("@h:f"),
        Err("Missing username".to_string())
    );
    assert_eq!(
        RemoteFolderDesc::from_str("u@h:"),
        Err("Folder must be specified".to_string())
    );
    assert_eq!(
        RemoteFolderDesc::from_str("u@:f"),
        Err("Missing hostname".to_string())
    );
    assert_eq!(
        RemoteFolderDesc::from_str("@:f"),
        Err("Missing username".to_string())
    );
    assert_eq!(
        RemoteFolderDesc::from_str("u@:"),
        Err("Missing hostname".to_string())
    );
    assert_eq!(
        RemoteFolderDesc::from_str("@h:"),
        Err("Missing username".to_string())
    );

    assert_eq!(
        RemoteFolderDesc::from_str("u@f"),
        Ok(RemoteFolderDesc {
            folder: "u@f".to_string(),
            ..Default::default()
        })
    );
    assert_eq!(
        RemoteFolderDesc::from_str("@f"),
        Ok(RemoteFolderDesc {
            folder: "@f".to_string(),
            ..Default::default()
        })
    );
    assert_eq!(
        RemoteFolderDesc::from_str("u@"),
        Ok(RemoteFolderDesc {
            folder: "u@".to_string(),
            ..Default::default()
        })
    );

    assert_eq!(
        RemoteFolderDesc::from_str("u:u@u:u@h:f:f:f@f"),
        Ok(RemoteFolderDesc {
            folder: "u@u:u@h:f:f:f@f".to_string(),
            hostname: "u".to_string(),
            username: "".to_string()
        })
    );

    assert_eq!(
        RemoteFolderDesc::from_str(r"C:\Path\On\Windows"),
        Ok(RemoteFolderDesc {
            folder: r"C:\Path\On\Windows".to_string(),
            ..Default::default()
        })
    );
    assert_eq!(
        RemoteFolderDesc::from_str(r"C:"),
        Ok(RemoteFolderDesc {
            folder: r"C:".to_string(),
            ..Default::default()
        })
    );
    assert_eq!(
        RemoteFolderDesc::from_str(r"C:\"),
        Ok(RemoteFolderDesc {
            folder: r"C:\".to_string(),
            ..Default::default()
        })
    );
    assert_eq!(
        RemoteFolderDesc::from_str(r"C:folder"),
        Ok(RemoteFolderDesc {
            folder: r"folder".to_string(),
            hostname: "C".to_string(),
            ..Default::default()
        })
    );
    assert_eq!(
        RemoteFolderDesc::from_str(r"C:\folder"),
        Ok(RemoteFolderDesc {
            folder: r"C:\folder".to_string(),
            ..Default::default()
        })
    );
    assert_eq!(
        RemoteFolderDesc::from_str(r"CC:folder"),
        Ok(RemoteFolderDesc {
            folder: r"folder".to_string(),
            hostname: "CC".to_string(),
            ..Default::default()
        })
    );
    assert_eq!(
        RemoteFolderDesc::from_str(r"CC:\folder"),
        Ok(RemoteFolderDesc {
            folder: r"\folder".to_string(),
            hostname: "CC".to_string(),
            ..Default::default()
        })
    );
    assert_eq!(
        RemoteFolderDesc::from_str(r"s:C:\folder"),
        Ok(RemoteFolderDesc {
            folder: r"C:\folder".to_string(),
            hostname: "s".to_string(),
            ..Default::default()
        })
    );
    assert_eq!(
        RemoteFolderDesc::from_str(r"u@s:C:\folder"),
        Ok(RemoteFolderDesc {
            folder: r"C:\folder".to_string(),
            hostname: "s".to_string(),
            username: "u".to_string()
        })
    );

    assert_eq!(
        RemoteFolderDesc::from_str(r"\\network\share\windows"),
        Ok(RemoteFolderDesc {
            folder: r"\\network\share\windows".to_string(),
            ..Default::default()
        })
    );

    assert_eq!(
        RemoteFolderDesc::from_str("/unix/absolute"),
        Ok(RemoteFolderDesc {
            folder: "/unix/absolute".to_string(),
            ..Default::default()
        })
    );
    assert_eq!(
        RemoteFolderDesc::from_str("username@server:/unix/absolute"),
        Ok(RemoteFolderDesc {
            folder: "/unix/absolute".to_string(),
            hostname: "server".to_string(),
            username: "username".to_string()
        })
    );
}

#[test]
fn parse_remote_path_desc() {
    // There's some quirks here with windows paths containing colons for drive letters

    assert_eq!(
        RemotePathDesc::from_str(""),
        Err("Path must be specified".to_string())
    );
    assert_eq!(
        RemotePathDesc::from_str("f"),
        Ok(RemotePathDesc {
            path: "f".to_string(),
            ..Default::default()
        })
    );
    assert_eq!(
        RemotePathDesc::from_str("h:f"),
        Ok(RemotePathDesc {
            path: "f".to_string(),
            hostname: "h".to_string(),
            username: "".to_string()
        })
    );
    assert_eq!(
        RemotePathDesc::from_str("hh:"),
        Err("Path must be specified".to_string())
    );
    assert_eq!(
        RemotePathDesc::from_str(":f"),
        Err("Missing hostname".to_string())
    );
    assert_eq!(
        RemotePathDesc::from_str(":"),
        Err("Missing hostname".to_string())
    );
    assert_eq!(
        RemotePathDesc::from_str("@"),
        Ok(RemotePathDesc {
            path: "@".to_string(),
            ..Default::default()
        })
    );

    assert_eq!(
        RemotePathDesc::from_str("u@h:f"),
        Ok(RemotePathDesc {
            path: "f".to_string(),
            hostname: "h".to_string(),
            username: "u".to_string()
        })
    );
    assert_eq!(
        RemotePathDesc::from_str("@h:f"),
        Err("Missing username".to_string())
    );
    assert_eq!(
        RemotePathDesc::from_str("u@h:"),
        Err("Path must be specified".to_string())
    );
    assert_eq!(
        RemotePathDesc::from_str("u@:f"),
        Err("Missing hostname".to_string())
    );
    assert_eq!(
        RemotePathDesc::from_str("@:f"),
        Err("Missing username".to_string())
    );
    assert_eq!(
        RemotePathDesc::from_str("u@:"),
        Err("Missing hostname".to_string())
    );
    assert_eq!(
        RemotePathDesc::from_str("@h:"),
        Err("Missing username".to_string())
    );

    assert_eq!(
        RemotePathDesc::from_str("u@f"),
        Ok(RemotePathDesc {
            path: "u@f".to_string(),
            ..Default::default()
        })
    );
    assert_eq!(
        RemotePathDesc::from_str("@f"),
        Ok(RemotePathDesc {
            path: "@f".to_string(),
            ..Default::default()
        })
    );
    assert_eq!(
        RemotePathDesc::from_str("u@"),
        Ok(RemotePathDesc {
            path: "u@".to_string(),
            ..Default::default()
        })
    );

    assert_eq!(
        RemotePathDesc::from_str("u:u@u:u@h:f:f:f@f"),
        Ok(RemotePathDesc {
            path: "u@u:u@h:f:f:f@f".to_string(),
            hostname: "u".to_string(),
            username: "".to_string()
        })
    );

    assert_eq!(
        RemotePathDesc::from_str(r"C:\Path\On\Windows"),
        Ok(RemotePathDesc {
            path: r"C:\Path\On\Windows".to_string(),
            ..Default::default()
        })
    );
    assert_eq!(
        RemotePathDesc::from_str(r"C:"),
        Ok(RemotePathDesc {
            path: r"C:".to_string(),
            ..Default::default()
        })
    );
    assert_eq!(
        RemotePathDesc::from_str(r"C:\"),
        Ok(RemotePathDesc {
            path: r"C:\".to_string(),
            ..Default::default()
        })
    );
    assert_eq!(
        RemotePathDesc::from_str(r"C:folder"),
        Ok(RemotePathDesc {
            path: r"folder".to_string(),
            hostname: "C".to_string(),
            ..Default::default()
        })
    );
    assert_eq!(
        RemotePathDesc::from_str(r"C:\folder"),
        Ok(RemotePathDesc {
            path: r"C:\folder".to_string(),
            ..Default::default()
        })
    );
    assert_eq!(
        RemotePathDesc::from_str(r"CC:folder"),
        Ok(RemotePathDesc {
            path: r"folder".to_string(),
            hostname: "CC".to_string(),
            ..Default::default()
        })
    );
    assert_eq!(
        RemotePathDesc::from_str(r"CC:\folder"),
        Ok(RemotePathDesc {
            path: r"\folder".to_string(),
            hostname: "CC".to_string(),
            ..Default::default()
        })
    );
    assert_eq!(
        RemotePathDesc::from_str(r"s:C:\folder"),
        Ok(RemotePathDesc {
            path: r"C:\folder".to_string(),
            hostname: "s".to_string(),
            ..Default::default()
        })
    );
    assert_eq!(
        RemotePathDesc::from_str(r"u@s:C:\folder"),
        Ok(RemotePathDesc {
            path: r"C:\folder".to_string(),
            hostname: "s".to_string(),
            username: "u".to_string()
        })
    );

    assert_eq!(
        RemotePathDesc::from_str(r"\\network\share\windows"),
        Ok(RemotePathDesc {
            path: r"\\network\share\windows".to_string(),
            ..Default::default()
        })
    );

    assert_eq!(
        RemotePathDesc::from_str("/unix/absolute"),
        Ok(RemotePathDesc {
            path: "/unix/absolute".to_string(),
            ..Default::default()
        })
    );
    assert_eq!(
        RemotePathDesc::from_str("username@server:/unix/absolute"),
        Ok(RemotePathDesc {
            path: "/unix/absolute".to_string(),
            hostname: "server".to_string(),
            username: "username".to_string()
        })
    );
}
