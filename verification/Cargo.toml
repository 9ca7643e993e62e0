[package]
name = "webgl_renderer"
version = "0.1.0"
edition = "2021"
publish = false

[dependencies]
anyhow = "1"
async-trait = "0.1"
futures = "0.3"
js-sys = "0.3"
nalgebra = "*"
nalgebra-glm = "*"
num-traits = "0.2"
wasm-bindgen = "0.2"
wasm-bindgen-futures = "0.4"
web-sys = { version = "0.3", features = ["WebGl2RenderingContext", "WebGlBuffer", "WebGlProgram", "WebGlShader", "WebGlTexture", "WebGlUniformLocation", "WebGlVertexArrayObject", "WebGlFramebuffer", "WebGlRenderbuffer", "HtmlCanvasElement", "HtmlImageElement", "KeyboardEvent", "Window", "Document", "Element", "Performance", "Response", "CanvasRenderingContext2d", "console"] }
