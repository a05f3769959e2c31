# mjpeg_proxy

A proxy for motion JPEG streams over HTTP. It reads the stream of one camera and passes its images
on to any number of clients.

- While there are no clients it fetches one image, then pauses for 30 seconds or until a client
  comes.
- A client is sent the image that came in last at once, and each new one from then on.
- Clients stay connected when the camera goes away for a while.
- With `?width=XX` the images are resized. For all clients of one width this is done once.

`src/` is the verified library: parsing the camera's stream, framing and resizing images, the state
of the fetching, and the bookkeeping of clients and widths. `app/` is the program around it: sockets,
threads and arguments. `tests/` runs the library on concrete values.

What the library takes on trust is stated at the functions marked `external_body`, in
`src/jpeg.rs`, `src/pattern.rs` and `src/request.rs`.

    mjpeg_proxy -u http://webcam.local:8080 [-p PORT] [-b ADDRESS]
