//! A single-source RTSP/RTP live streaming server core: H.264 Annex-B
//! framing, RTP packetization, RTCP sender reports, the RTSP session
//! state machine and the client registry read by the fan-out.

pub mod wire;
pub mod rtp_packet;
pub mod h264;
pub mod nalu;
pub mod text;
pub mod registry;
pub mod rtsp;
pub mod sdp;
pub mod session;
pub mod rtcp;
pub mod pipeline;
pub mod source;
