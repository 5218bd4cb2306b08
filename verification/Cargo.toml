[package]
name = "cyberdeck_client_web_sys"
version = "0.1.0"
edition = "2021"
publish = false

[dependencies]
js-sys = "*"
wasm-bindgen = "*"
wasm-bindgen-futures = "*"
serde-wasm-bindgen = "*"
web-sys = { version = "*", features = ["Window", "Request", "RequestInit", "RequestMode", "Response", "RtcPeerConnection", "RtcConfiguration", "RtcDataChannel", "RtcDataChannelState", "RtcSessionDescription", "RtcSessionDescriptionInit", "RtcSdpType", "RtcPeerConnectionIceEvent", "RtcIceCandidate", "RtcIceConnectionState", "RtcPeerConnectionState", "MessageEvent"] }
